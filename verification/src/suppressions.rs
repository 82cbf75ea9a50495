//! Suppression rules: file-path glob patterns and exact literal texts that
//! must not be reported as leaks, and the filtering of compile commands by
//! the file patterns.

use vstd::prelude::*;
use vstd::string::StrSliceExecFns;
use vstd::string::StringExecFns;

verus! {

/// What glob pattern matching computes for a pattern text and a path text:
/// parsing the pattern and matching the path against it (a pattern text that
/// does not parse matches nothing).
pub uninterp spec fn glob_match(pattern: Seq<char>, path: Seq<char>) -> bool;

/// Relies on glob's Pattern::new and Pattern::matches: whether a path
/// matches is a function of the pattern text and the path text alone, and a
/// pattern text that fails to parse matches no path.
#[verifier::external_body]
fn glob_matches_path(pattern: &str, path: &str) -> (r: bool)
    ensures
        r == glob_match(pattern@, path@),
{
    match glob::Pattern::new(pattern) {
        Ok(p) => p.matches(path),
        Err(_) => false,
    }
}

/// Pre-parsed suppression rules: glob patterns for file paths whose
/// literals are all ignored, and exact literal texts that are ignored
/// wherever they are declared.
pub struct Suppressions {
    pub files: Vec<String>,
    pub artifacts: Vec<String>,
}

impl Suppressions {
    /// The file patterns as character sequences.
    pub open spec fn files_view(&self) -> Seq<Seq<char>> {
        Seq::new(self.files@.len(), |i: int| self.files@[i]@)
    }

    /// The suppressed literal texts as character sequences.
    pub open spec fn artifacts_view(&self) -> Seq<Seq<char>> {
        Seq::new(self.artifacts@.len(), |i: int| self.artifacts@[i]@)
    }

    /// True when some file pattern of these rules matches the path.
    pub open spec fn spec_matches_file(&self, path: Seq<char>) -> bool {
        exists|i: int|
            0 <= i < self.files_view().len() && #[trigger] glob_match(self.files_view()[i], path)
    }

    /// True when the literal text equals a member of this artifact set.
    pub open spec fn spec_matches_artifact(&self, text: Seq<char>) -> bool {
        self.artifacts_view().contains(text)
    }
}

/// True when some file pattern of the rules matches the path; absence of
/// rules suppresses nothing.
pub open spec fn spec_file_suppressed(sup: Option<Suppressions>, path: Seq<char>) -> bool {
    match sup {
        Some(s) => s.spec_matches_file(path),
        None => false,
    }
}

/// True when the literal text equals a member of the artifact set; absence
/// of rules suppresses nothing.
pub open spec fn spec_artifact_suppressed(sup: Option<Suppressions>, text: Seq<char>) -> bool {
    match sup {
        Some(s) => s.spec_matches_artifact(text),
        None => false,
    }
}

/// Whether any suppression file pattern matches the given path.
pub fn file_suppressed(suppressions: &Option<Suppressions>, path: &str) -> (r: bool)
    ensures
        r == spec_file_suppressed(*suppressions, path@),
{
    match suppressions {
        None => false,
        Some(s) => {
            let mut i: usize = 0;
            while i < s.files.len()
                invariant
                    *suppressions == Some(*s),
                    i <= s.files@.len(),
                    forall|j: int|
                        0 <= j < i ==> !(#[trigger] glob_match(s.files_view()[j], path@)),
                decreases s.files@.len() - i,
            {
                let pat = s.files[i].as_str();
                proof {
                    assert(pat@ == s.files_view()[i as int]);
                }
                if glob_matches_path(pat, path) {
                    proof {
                        assert(glob_match(s.files_view()[i as int], path@));
                        assert(s.spec_matches_file(path@));
                    }
                    return true;
                }
                i = i + 1;
            }
            proof {
                assert(!spec_file_suppressed(*suppressions, path@));
            }
            false
        },
    }
}

/// Whether the literal text equals a member of the artifact set.
pub fn artifact_suppressed(suppressions: &Option<Suppressions>, text: &String) -> (r: bool)
    ensures
        r == spec_artifact_suppressed(*suppressions, text@),
{
    match suppressions {
        None => false,
        Some(s) => {
            let mut i: usize = 0;
            while i < s.artifacts.len()
                invariant
                    *suppressions == Some(*s),
                    i <= s.artifacts@.len(),
                    forall|j: int| 0 <= j < i ==> s.artifacts_view()[j] != text@,
                decreases s.artifacts@.len() - i,
            {
                if s.artifacts[i].eq(text) {
                    proof {
                        assert(s.artifacts_view()[i as int] == text@);
                    }
                    return true;
                }
                proof {
                    assert(s.artifacts_view()[i as int] != text@);
                }
                i = i + 1;
            }
            proof {
                assert(forall|j: int|
                    0 <= j < s.artifacts_view().len() ==> s.artifacts_view()[j] != text@);
            }
            false
        },
    }
}

/// One compiler invocation: working directory, source file and arguments.
#[derive(Clone)]
pub struct CompileCommand {
    pub directory: String,
    pub filename: String,
    pub arguments: Vec<String>,
}

/// The path of a compile command's source file: its file name resolved
/// against its directory (an absolute file name stands alone).
pub open spec fn joined_path(dir: Seq<char>, name: Seq<char>) -> Seq<char> {
    if name.len() > 0 && name[0] == '/' {
        name
    } else if dir.len() == 0 {
        name
    } else if dir[dir.len() - 1] == '/' {
        dir + name
    } else {
        dir + seq!['/'] + name
    }
}

/// Resolves a compile command's file name against its directory.
pub fn join_path(directory: &String, filename: &String) -> (r: String)
    ensures
        r@ == joined_path(directory@, filename@),
{
    let name_len = filename.as_str().unicode_len();
    let dir_len = directory.as_str().unicode_len();
    if name_len > 0 && filename.as_str().get_char(0) == '/' {
        filename.clone()
    } else if dir_len == 0 {
        filename.clone()
    } else if directory.as_str().get_char(dir_len - 1) == '/' {
        directory.clone().concat(filename.as_str())
    } else {
        let with_sep = directory.clone().concat("/");
        proof {
            reveal_strlit("/");
            assert(with_sep@ =~= directory@ + seq!['/']);
        }
        let r = with_sep.concat(filename.as_str());
        proof {
            assert(r@ =~= (directory@ + seq!['/']) + filename@);
        }
        r
    }
}

/// The compile commands that survive file suppression, in their given
/// order: a command whose resolved path matches a file pattern is dropped.
pub open spec fn spec_filter_suppressed_files(
    cmds: Seq<CompileCommand>,
    sup: Option<Suppressions>,
) -> Seq<CompileCommand>
    decreases cmds.len(),
{
    if cmds.len() == 0 {
        Seq::empty()
    } else {
        let rest = spec_filter_suppressed_files(cmds.drop_last(), sup);
        if spec_file_suppressed(
            sup,
            joined_path(cmds.last().directory@, cmds.last().filename@),
        ) {
            rest
        } else {
            rest.push(cmds.last())
        }
    }
}

/// Drops every compile command whose resolved source path matches a
/// suppression file pattern; the order of the kept commands is unchanged.
pub fn filter_suppressed_files(
    compile_cmds: Vec<CompileCommand>,
    suppressions: &Option<Suppressions>,
) -> (r: Vec<CompileCommand>)
    ensures
        r@ == spec_filter_suppressed_files(compile_cmds@, *suppressions),
{
    let ghost orig = compile_cmds@;
    let mut cmds = compile_cmds;
    let mut out: Vec<CompileCommand> = Vec::new();
    let mut i: usize = 0;
    let n = cmds.len();
    proof {
        assert(orig.take(0) =~= Seq::<CompileCommand>::empty());
    }
    while i < n
        invariant
            i <= n,
            n == orig.len(),
            cmds@ == orig.skip(i as int),
            out@ == spec_filter_suppressed_files(orig.take(i as int), *suppressions),
        decreases n - i,
    {
        let cmd = cmds.remove(0);
        proof {
            assert(cmd == orig[i as int]);
            assert(cmds@ =~= orig.skip(i + 1));
            assert(orig.take(i + 1).drop_last() =~= orig.take(i as int));
            assert(orig.take(i + 1).last() == orig[i as int]);
        }
        let path = join_path(&cmd.directory, &cmd.filename);
        if !file_suppressed(suppressions, path.as_str()) {
            out.push(cmd);
        }
        i = i + 1;
    }
    proof {
        assert(orig.take(n as int) =~= orig);
    }
    out
}

} // verus!
