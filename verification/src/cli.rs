//! The command-line surface of the package manager, as plain data, and the
//! decisions behind it: which operations require a confirmation, and how a
//! typed answer is interpreted. Argument parsing and prompting themselves are
//! the surrounding process's concern.

use vstd::prelude::*;

verus! {

/// The parsed command line: an operation, or the version banner.
pub struct Cli {
    pub operation: Option<Operations>,
    pub version: bool,
}

/// Every operation the package manager accepts.
pub enum Operations {
    Install(Install),
    Remove(Remove),
    Search(Search),
    Query(Query),
    List,
    Upgrade,
    Sync,
    AddRepo(AddRepo),
    Downgrade(Downgrade),
    Resume(Resume),
}

/// Install the named packages.
pub struct Install {
    pub pkgs: Vec<String>,
    /// Skip confirmation and force past a missing verification spec.
    pub force: bool,
}

/// Remove the named packages.
pub struct Remove {
    pub pkgs: Vec<String>,
    /// Automatically answer yes to prompts.
    pub yes: bool,
}

/// Search the repositories.
pub struct Search {
    pub terms: Vec<String>,
    pub all: bool,
}

/// Query installed packages.
pub struct Query {
    pub terms: Vec<String>,
    pub details: bool,
}

/// Add a repository URL.
pub struct AddRepo {
    pub repo: String,
    pub update: bool,
}

/// Downgrade the named packages.
pub struct Downgrade {
    pub pkgs: Vec<String>,
    pub version: Option<String>,
}

/// Resume a paused or interrupted transaction.
pub struct Resume {
    pub all: bool,
    pub id: Option<String>,
}

/// Which operations stop for a yes/no confirmation: everything that mutates
/// the system, unless the caller pre-supplied the answer (force, yes, update,
/// or a concrete resume target).
pub open spec fn spec_needs_confirmation(op: &Operations) -> bool {
    match op {
        Operations::Install(install) => !install.force,
        Operations::Remove(remove) => !remove.yes,
        Operations::Search(..) => false,
        Operations::Query(..) => false,
        Operations::List => false,
        Operations::Upgrade => true,
        Operations::Sync => true,
        Operations::AddRepo(add_repo) => !add_repo.update,
        Operations::Downgrade(..) => true,
        Operations::Resume(resume) => !resume.all && resume.id is None,
    }
}

/// Decides `spec_needs_confirmation`.
pub fn needs_confirmation(op: &Operations) -> (r: bool)
    ensures
        r == spec_needs_confirmation(op),
{
    match op {
        Operations::Install(install) => !install.force,
        Operations::Remove(remove) => !remove.yes,
        Operations::Search(..) => false,
        Operations::Query(..) => false,
        Operations::List => false,
        Operations::Upgrade => true,
        Operations::Sync => true,
        Operations::AddRepo(add_repo) => !add_repo.update,
        Operations::Downgrade(..) => true,
        Operations::Resume(resume) => {
            let no_id = match &resume.id {
                Some(_) => false,
                None => true,
            };
            !resume.all && no_id
        },
    }
}

/// ASCII whitespace, as a typed console line carries it.
pub open spec fn is_ascii_ws(c: char) -> bool {
    c == ' ' || c == '\t' || c == '\n' || c == '\r'
}

/// The answer with its leading whitespace dropped.
pub open spec fn trim_front(s: Seq<char>) -> Seq<char>
    decreases s.len(),
{
    if s.len() > 0 && is_ascii_ws(s[0]) {
        trim_front(s.drop_first())
    } else {
        s
    }
}

/// The answer with its trailing whitespace dropped.
pub open spec fn trim_back(s: Seq<char>) -> Seq<char>
    decreases s.len(),
{
    if s.len() > 0 && is_ascii_ws(s.last()) {
        trim_back(s.drop_last())
    } else {
        s
    }
}

/// Case-insensitive match against one ASCII letter.
pub open spec fn ci(c: char, upper: char, lower: char) -> bool {
    c == upper || c == lower
}

/// The trimmed answer means yes: `y` or `yes`, any case.
pub open spec fn yes_word(t: Seq<char>) -> bool {
    ||| (t.len() == 1 && ci(t[0], 'Y', 'y'))
    ||| (t.len() == 3 && ci(t[0], 'Y', 'y') && ci(t[1], 'E', 'e') && ci(t[2], 'S', 's'))
}

/// The trimmed answer means no: `n` or `no`, any case.
pub open spec fn no_word(t: Seq<char>) -> bool {
    ||| (t.len() == 1 && ci(t[0], 'N', 'n'))
    ||| (t.len() == 2 && ci(t[0], 'N', 'n') && ci(t[1], 'O', 'o'))
}

/// What a typed confirmation line means: yes, no, or ask again.
pub open spec fn answer_of(s: Seq<char>) -> Option<bool> {
    let t = trim_back(trim_front(s));
    if yes_word(t) {
        Some(true)
    } else if no_word(t) {
        Some(false)
    } else {
        None
    }
}

/// Interprets one typed confirmation line: `Some(true)` for a yes, in any
/// case and surrounding whitespace, `Some(false)` for a no, and `None` for
/// anything the prompt must ask again.
pub fn interpret_answer(s: &str) -> (r: Option<bool>)
    ensures
        r == answer_of(s@),
{
    let n = s.unicode_len();
    let mut start: usize = 0;
    proof {
        assert(s@.skip(0) =~= s@);
    }
    while start < n && check_ws(s.get_char(start))
        invariant
            start <= n,
            n == s@.len(),
            trim_front(s@.skip(start as int)) == trim_front(s@),
        decreases n - start,
    {
        proof {
            assert(s@.skip(start as int)[0] == s@[start as int]);
            assert(s@.skip(start as int).drop_first() =~= s@.skip(start + 1));
        }
        start = start + 1;
    }
    proof {
        assert(trim_front(s@) == s@.skip(start as int));
    }
    let mut end: usize = n;
    while end > start && check_ws(s.get_char(end - 1))
        invariant
            start <= end <= n,
            n == s@.len(),
            trim_front(s@) == s@.skip(start as int),
            trim_back(s@.subrange(start as int, end as int)) == trim_back(trim_front(s@)),
        decreases end,
    {
        proof {
            let sub = s@.subrange(start as int, end as int);
            assert(sub.last() == s@[end - 1]);
            assert(sub.drop_last() =~= s@.subrange(start as int, end - 1));
        }
        end = end - 1;
    }
    let ghost t = trim_back(trim_front(s@));
    proof {
        assert(s@.subrange(start as int, end as int) =~= s@.skip(start as int).take(
            end - start as int,
        ));
        assert(t == s@.subrange(start as int, end as int));
    }
    let len = end - start;
    if len == 1 {
        let c = s.get_char(start);
        proof {
            assert(t[0] == s@[start as int]);
        }
        if c == 'Y' || c == 'y' {
            Some(true)
        } else if c == 'N' || c == 'n' {
            Some(false)
        } else {
            None
        }
    } else if len == 2 {
        let c0 = s.get_char(start);
        let c1 = s.get_char(start + 1);
        proof {
            assert(t[0] == s@[start as int] && t[1] == s@[start + 1]);
        }
        if (c0 == 'N' || c0 == 'n') && (c1 == 'O' || c1 == 'o') {
            Some(false)
        } else {
            None
        }
    } else if len == 3 {
        let c0 = s.get_char(start);
        let c1 = s.get_char(start + 1);
        let c2 = s.get_char(start + 2);
        proof {
            assert(t[0] == s@[start as int] && t[1] == s@[start + 1] && t[2] == s@[start + 2]);
        }
        if (c0 == 'Y' || c0 == 'y') && (c1 == 'E' || c1 == 'e') && (c2 == 'S' || c2 == 's') {
            Some(true)
        } else {
            None
        }
    } else {
        None
    }
}

/// Decides `is_ascii_ws`.
fn check_ws(c: char) -> (r: bool)
    ensures
        r == is_ascii_ws(c),
{
    c == ' ' || c == '\t' || c == '\n' || c == '\r'
}

} // verus!
