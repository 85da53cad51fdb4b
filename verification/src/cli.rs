//! The command-line arguments of the two tools, and the reading of a
//! yes/no answer.
use vstd::prelude::*;

use crate::text::{chars_of, is_space, lemma_trim_bounds, push_char, trim, trim_bounds};

verus! {

/// The options that both tools take: a target directory or a workspace
/// name (at most one of them).
#[derive(Debug, Clone)]
pub struct CommonArgs {
    pub dir: Option<String>,
    pub workspace: Option<String>,
}

/// The arguments of `krun`.
#[derive(Debug, Clone)]
pub struct KrunCli {
    pub command: Commands,
    pub common: CommonArgs,
}

/// The arguments of `kr`, which runs a profile.
#[derive(Debug, Clone)]
pub struct KrCli {
    pub profile: Option<String>,
    pub common: CommonArgs,
}

/// The subcommands of `krun`.
#[derive(Debug, Clone)]
pub enum Commands {
    /// Open the configuration editor.
    Edit,
    /// Register a new directory or repository.
    Init,
    /// Delete the target workspace's configuration.
    Remove,
    /// Execute the given profile, or the default one.
    Run { profile: Option<String> },
}

/// `.`, the current directory.
pub open spec fn current_dir() -> Seq<char> {
    seq!['.']
}

impl CommonArgs {
    /// The directory the tools work on: the one given, else the current one.
    pub fn target_dir(&self) -> (r: String)
        ensures
            r@ == match self.dir {
                Some(d) => d@,
                None => current_dir(),
            },
    {
        match &self.dir {
            Some(d) => d.clone(),
            None => {
                let mut s = String::new();
                push_char(&mut s, '.');
                assert(s@ =~= current_dir());
                s
            },
        }
    }
}

/// Whether an answer to a `[Y/n]` question accepts: an empty answer does,
/// and so does `y` or `Y`, surrounding whitespace aside.
pub open spec fn accepts(answer: Seq<char>) -> bool {
    let t = trim(answer);
    t.len() == 0 || t == seq!['y'] || t == seq!['Y']
}

/// An answer accepts exactly when it is all whitespace, or when its one
/// character other than whitespace is `y` or `Y`.
pub proof fn lemma_accepts(answer: Seq<char>)
    ensures
        accepts(answer) <==> (forall|i: int| 0 <= i < answer.len() ==> is_space(#[trigger] answer[i]))
            || exists|k: int|
            0 <= k < answer.len() && (answer[k] == 'y' || answer[k] == 'Y') && forall|j: int|
                0 <= j < answer.len() && j != k ==> is_space(#[trigger] answer[j]),
{
    let (a, b) = lemma_trim_bounds(answer);
    let t = trim(answer);
    if accepts(answer) {
        if t.len() == 0 {
            assert forall|i: int| 0 <= i < answer.len() implies is_space(#[trigger] answer[i]) by {
                assert(i < a || i >= b);
            }
        } else {
            assert(t.len() == 1);
            assert(t[0] == answer[a]);
            assert(answer[a] == 'y' || answer[a] == 'Y');
            assert forall|j: int| 0 <= j < answer.len() && j != a implies is_space(
                #[trigger] answer[j],
            ) by {
                assert(j < a || j >= b);
            }
        }
    } else {
        if forall|i: int| 0 <= i < answer.len() ==> is_space(#[trigger] answer[i]) {
            if a < b {
                assert(is_space(answer[a]));
            }
            assert(t.len() == 0);
        }
        if exists|k: int|
            0 <= k < answer.len() && (answer[k] == 'y' || answer[k] == 'Y') && forall|j: int|
                0 <= j < answer.len() && j != k ==> is_space(#[trigger] answer[j]) {
            let k = choose|k: int|
                0 <= k < answer.len() && (answer[k] == 'y' || answer[k] == 'Y') && forall|j: int|
                    0 <= j < answer.len() && j != k ==> is_space(#[trigger] answer[j]);
            assert(!is_space(answer[k]));
            assert(a <= k) by {
                if k < a {
                    assert(is_space(answer[k]));
                }
            }
            assert(k < b) by {
                if k >= b {
                    assert(is_space(answer[k]));
                }
            }
            assert(a == k) by {
                if a != k {
                    assert(is_space(answer[a]));
                }
            }
            assert(b - 1 == k) by {
                if b - 1 != k {
                    assert(is_space(answer[b - 1]));
                }
            }
            assert(t =~= seq![answer[k]]);
        }
    }
}

/// Reads the answer that a user typed to a `[Y/n]` question.
pub fn confirm_answer(input: &str) -> (r: bool)
    ensures
        r == accepts(input@),
{
    let cs = chars_of(input);
    let (a, b) = trim_bounds(&cs, 0, cs.len());
    assert(cs@.subrange(0, cs.len() as int) =~= cs@);
    if a == b {
        return true;
    }
    let ghost t = cs@.subrange(a as int, b as int);
    if b - a == 1 && (cs[a] == 'y' || cs[a] == 'Y') {
        assert(t =~= seq![cs@[a as int]]);
        true
    } else {
        assert(t == seq!['y'] ==> t.len() == 1 && t[0] == 'y');
        assert(t == seq!['Y'] ==> t.len() == 1 && t[0] == 'Y');
        assert(t.len() == 1 ==> t[0] == cs@[a as int]);
        false
    }
}

} // verus!
