//! Reading a file that another process may still be writing: when to read
//! again, when to parse what was read, and when to give up.

use vstd::prelude::*;
use vstd::std_specs::iter::IteratorSpec;
use vstd::string::StrSliceExecFns;

verus! {

/// How often the file is read at most, by the standard policy.
pub const DEFAULT_ATTEMPTS: u32 = 5;

/// How many seconds lie between two reads, by the standard policy.
pub const DEFAULT_BACKOFF_SECONDS: u64 = 2;

/// How many characters of the content a report of a parse failure shows.
pub const PREVIEW_CHARS: usize = 200;

/// The characters with the Unicode property White_Space.
pub open spec fn is_space(c: char) -> bool {
    let code = c as u32;
    ||| 0x09 <= code <= 0x0D
    ||| code == 0x20
    ||| code == 0x85
    ||| code == 0xA0
    ||| code == 0x1680
    ||| 0x2000 <= code <= 0x200A
    ||| code == 0x2028
    ||| code == 0x2029
    ||| code == 0x202F
    ||| code == 0x205F
    ||| code == 0x3000
}

/// A text is blank when it is empty or holds nothing but white space.
pub open spec fn blank(text: Seq<char>) -> bool {
    forall|i: int| 0 <= i < text.len() ==> is_space(#[trigger] text[i])
}

/// Decides whether a character is white space.
pub fn is_space_char(c: char) -> (space: bool)
    ensures
        space == is_space(c),
{
    let code: u32 = c as u32;
    (0x09 <= code && code <= 0x0D) || code == 0x20 || code == 0x85 || code == 0xA0 || code
        == 0x1680 || (0x2000 <= code && code <= 0x200A) || code == 0x2028 || code == 0x2029
        || code == 0x202F || code == 0x205F || code == 0x3000
}

/// Decides whether a text is blank.
pub fn is_blank(text: &str) -> (empty: bool)
    ensures
        empty == blank(text@),
{
    let mut rest = text.chars();
    let ghost mut seen: int = 0;
    loop
        invariant
            rest.obeys_prophetic_iter_laws(),
            0 <= seen <= text@.len(),
            rest.remaining() == text@.skip(seen),
            forall|i: int| 0 <= i < seen ==> is_space(#[trigger] text@[i]),
        decreases text@.len() - seen,
    {
        match rest.next() {
            Some(c) => {
                if !is_space_char(c) {
                    assert(!is_space(text@[seen]));
                    return false;
                }
                proof {
                    seen = seen + 1;
                }
            },
            None => {
                return true;
            },
        }
    }
}

/// How long the loader keeps trying: the number of reads it makes at most,
/// and the seconds it waits before each read but the first.
#[derive(Debug, Clone, Copy, PartialEq, Eq)]
pub struct RetryPolicy {
    pub attempts: u32,
    pub backoff_seconds: u64,
}

/// What the loader does next.
#[derive(Debug, Clone, Copy, PartialEq, Eq)]
pub enum LoadStep {
    /// Wait for the given number of seconds, read the whole file, and hand
    /// its content to the loader.
    Read { wait_seconds: u64 },
    /// The content that was handed in last is not blank: parse it.
    Parse,
    /// The file does not exist. The loader has given up.
    NotFound,
    /// The file stayed blank through every read. The loader has given up.
    Unreadable,
}

/// The state of the loader: its policy, and how many reads it may still make.
#[derive(Debug, Clone, Copy, PartialEq, Eq)]
pub struct Loader {
    pub policy: RetryPolicy,
    pub reads_left: u32,
}

impl RetryPolicy {
    /// The standard policy: five reads, two seconds apart.
    pub fn standard() -> (policy: Self)
        ensures
            policy == (RetryPolicy {
                attempts: DEFAULT_ATTEMPTS,
                backoff_seconds: DEFAULT_BACKOFF_SECONDS,
            }),
    {
        RetryPolicy { attempts: DEFAULT_ATTEMPTS, backoff_seconds: DEFAULT_BACKOFF_SECONDS }
    }
}

impl Loader {
    /// The loader after a read that gave `content`, and what it does next.
    /// Content that is not blank is parsed. Blank content uses up one read:
    /// where that was the last one the loader gives up, else it reads again
    /// after the backoff.
    pub open spec fn after(self, content: Seq<char>) -> (Loader, LoadStep) {
        if self.reads_left == 0 {
            (self, LoadStep::Unreadable)
        } else if !blank(content) {
            (self, LoadStep::Parse)
        } else if self.reads_left == 1 {
            (Loader { policy: self.policy, reads_left: 0 }, LoadStep::Unreadable)
        } else {
            (
                Loader { policy: self.policy, reads_left: (self.reads_left - 1) as u32 },
                LoadStep::Read { wait_seconds: self.policy.backoff_seconds },
            )
        }
    }

    /// The first step of a loader: a missing file is reported at once, a
    /// loader without reads gives up, and else the file is read without
    /// waiting.
    pub open spec fn first_step(self, file_exists: bool) -> LoadStep {
        if !file_exists {
            LoadStep::NotFound
        } else if self.reads_left == 0 {
            LoadStep::Unreadable
        } else {
            LoadStep::Read { wait_seconds: 0 }
        }
    }

    /// A loader that has made no read yet.
    pub fn new(policy: RetryPolicy) -> (loader: Self)
        ensures
            loader == (Loader { policy, reads_left: policy.attempts }),
    {
        Loader { policy, reads_left: policy.attempts }
    }

    /// What to do first, given whether the file exists.
    pub fn begin(&self, file_exists: bool) -> (step: LoadStep)
        ensures
            step == self.first_step(file_exists),
    {
        if !file_exists {
            LoadStep::NotFound
        } else if self.reads_left == 0 {
            LoadStep::Unreadable
        } else {
            LoadStep::Read { wait_seconds: 0 }
        }
    }

    /// Takes the content of a read and says what to do next.
    pub fn after_read(&mut self, content: &str) -> (step: LoadStep)
        ensures
            (*final(self), step) == old(self).after(content@),
    {
        if self.reads_left == 0 {
            LoadStep::Unreadable
        } else if !is_blank(content) {
            LoadStep::Parse
        } else {
            self.reads_left = self.reads_left - 1;
            if self.reads_left == 0 {
                LoadStep::Unreadable
            } else {
                LoadStep::Read { wait_seconds: self.policy.backoff_seconds }
            }
        }
    }
}

/// Where a loader ends that is handed the contents `reads` one after the
/// other, from `reads[from]` on: the number of the read whose content it
/// parses, or `None` where it gives up or runs out of contents first.
pub open spec fn settles_at(loader: Loader, reads: Seq<Seq<char>>, from: int) -> Option<int>
    decreases reads.len() - from,
{
    if from < 0 || from >= reads.len() {
        None
    } else {
        match loader.after(reads[from]).1 {
            LoadStep::Parse => Some(from),
            LoadStep::Read { .. } => settles_at(loader.after(reads[from]).0, reads, from + 1),
            _ => None,
        }
    }
}

/// Whether a loader that is handed the contents `reads` one after the
/// other, from `reads[from]` on, gives up because all of them were blank.
pub open spec fn gives_up(loader: Loader, reads: Seq<Seq<char>>, from: int) -> bool
    decreases reads.len() - from,
{
    if from < 0 || from >= reads.len() {
        false
    } else {
        match loader.after(reads[from]).1 {
            LoadStep::Unreadable => true,
            LoadStep::Read { .. } => gives_up(loader.after(reads[from]).0, reads, from + 1),
            _ => false,
        }
    }
}

/// A loader that sees blank content fewer times than it has reads left, and
/// then content that is not blank, parses that content.
proof fn lemma_settles_within_budget(loader: Loader, reads: Seq<Seq<char>>, from: int, hit: int)
    requires
        0 <= from <= hit < reads.len(),
        hit - from < loader.reads_left,
        forall|k: int| from <= k < hit ==> blank(#[trigger] reads[k]),
        !blank(reads[hit]),
    ensures
        settles_at(loader, reads, from) == Some(hit),
        !gives_up(loader, reads, from),
    decreases hit - from,
{
    if from < hit {
        lemma_settles_within_budget(loader.after(reads[from]).0, reads, from + 1, hit);
    }
}

/// A loader that sees blank content at every read it has left gives up,
/// and parses nothing.
proof fn lemma_gives_up_when_all_blank(loader: Loader, reads: Seq<Seq<char>>, from: int)
    requires
        0 <= from,
        loader.reads_left > 0,
        from + loader.reads_left <= reads.len(),
        forall|k: int| from <= k < from + loader.reads_left ==> blank(#[trigger] reads[k]),
    ensures
        gives_up(loader, reads, from),
        settles_at(loader, reads, from) is None,
    decreases loader.reads_left,
{
    if loader.reads_left > 1 {
        lemma_gives_up_when_all_blank(loader.after(reads[from]).0, reads, from + 1);
    }
}

/// A file that exists, is blank for the first `blanks` reads and is not
/// blank at the next one is parsed at that read, as long as the policy
/// allows for more than `blanks` reads.
pub proof fn law_blank_at_first_is_read_again(
    policy: RetryPolicy,
    reads: Seq<Seq<char>>,
    blanks: int,
)
    requires
        0 <= blanks < policy.attempts,
        blanks < reads.len(),
        forall|k: int| 0 <= k < blanks ==> blank(#[trigger] reads[k]),
        !blank(reads[blanks]),
    ensures
        (Loader { policy, reads_left: policy.attempts }).first_step(true) == (LoadStep::Read {
            wait_seconds: 0,
        }),
        settles_at(Loader { policy, reads_left: policy.attempts }, reads, 0) == Some(blanks),
        !gives_up(Loader { policy, reads_left: policy.attempts }, reads, 0),
{
    lemma_settles_within_budget(Loader { policy, reads_left: policy.attempts }, reads, 0, blanks);
}

/// A file that exists and is blank at every read that the policy allows
/// for is given up as unreadable, and nothing is parsed.
pub proof fn law_blank_throughout_is_unreadable(policy: RetryPolicy, reads: Seq<Seq<char>>)
    requires
        policy.attempts <= reads.len(),
        forall|k: int| 0 <= k < policy.attempts ==> blank(#[trigger] reads[k]),
    ensures
        settles_at(Loader { policy, reads_left: policy.attempts }, reads, 0) is None,
        policy.attempts == 0 ==> (Loader { policy, reads_left: policy.attempts }).first_step(true)
            == LoadStep::Unreadable,
        policy.attempts > 0 ==> gives_up(
            Loader { policy, reads_left: policy.attempts },
            reads,
            0,
        ),
{
    if policy.attempts > 0 {
        lemma_gives_up_when_all_blank(Loader { policy, reads_left: policy.attempts }, reads, 0);
    }
}

/// A file that does not exist is reported as not found before any read.
pub proof fn law_missing_file_is_not_found(loader: Loader)
    ensures
        loader.first_step(false) == LoadStep::NotFound,
{
}

/// Why no records could be loaded.
#[derive(Debug, PartialEq, Eq)]
pub enum LoadError {
    /// The file does not exist.
    NotFound,
    /// The file stayed blank through every read.
    UnreadableInput,
    /// The content is no collection of records: what the parser said, and
    /// the beginning of the content.
    Parse { reason: String, preview: String },
}

/// The first `limit` characters of a text, or all of it where it is shorter.
pub open spec fn beginning(text: Seq<char>, limit: int) -> Seq<char> {
    if text.len() <= limit {
        text
    } else {
        text.take(limit)
    }
}

/// The beginning of a text, at most `limit` characters long.
pub fn preview_of(content: &str, limit: usize) -> (preview: String)
    ensures
        preview@ == beginning(content@, limit as int),
{
    let length: usize = content.unicode_len();
    if length <= limit {
        content.to_owned()
    } else {
        content.substring_char(0, limit).to_owned()
    }
}

/// The error for content that could not be parsed: it keeps what the parser
/// said and the first `PREVIEW_CHARS` characters of the content.
pub fn parse_failure(reason: &str, content: &str) -> (error: LoadError)
    ensures
        error matches LoadError::Parse { reason: kept, preview } && kept@ == reason@ && preview@
            == beginning(content@, PREVIEW_CHARS as int),
{
    LoadError::Parse { reason: reason.to_owned(), preview: preview_of(content, PREVIEW_CHARS) }
}

/// The error with which a loader gives up at a step, if it gives up there.
pub fn failure_of(step: LoadStep) -> (error: Option<LoadError>)
    ensures
        match step {
            LoadStep::NotFound => error == Some(LoadError::NotFound),
            LoadStep::Unreadable => error == Some(LoadError::UnreadableInput),
            _ => error is None,
        },
{
    match step {
        LoadStep::NotFound => Some(LoadError::NotFound),
        LoadStep::Unreadable => Some(LoadError::UnreadableInput),
        _ => None,
    }
}

} // verus!
