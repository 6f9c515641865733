//! The compiler's documents: the version of a module's file, and where an edit given by
//! lines and characters falls in a document's text.

use vstd::prelude::*;
use vstd::string::{StrSliceExecFns, StringExecFns};
use crate::compiler::types::Position;
use crate::module_url::{ModuleUrl, ModuleUrlView, spec_join, join_path, spec_uri_text, parsed_url, try_to_uri};

verus! {

/// The file whose changes give a module its versions: the module's file for a module found
/// by path, the package's manifest for the targets of a package found by path, and none for
/// the other modules, whose contents never change (their version is always 0).
pub open spec fn spec_version_path(u: ModuleUrlView) -> Option<Seq<char>> {
    match u {
        ModuleUrlView::PathModule { package_path, module } => Some(spec_join(package_path, module)),
        ModuleUrlView::PathTargets { package_path } => Some(spec_join(package_path, "tangram.json"@)),
        _ => None,
    }
}

/// The file whose changes give a module its versions (see `spec_version_path`).
pub fn version_path(url: &ModuleUrl) -> (r: Option<String>)
    ensures
        match r {
            Some(p) => spec_version_path(url@) == Some(p@),
            None => spec_version_path(url@) is None,
        },
{
    match url {
        ModuleUrl::PathModule { package_path, module } => Some(join_path(package_path.as_str(), module.as_str())),
        ModuleUrl::PathTargets { package_path } => Some(join_path(package_path.as_str(), "tangram.json")),
        _ => None,
    }
}

/// What the compiler knows of a file.
#[derive(Debug, Clone, Copy, PartialEq, Eq, Structural)]
pub enum FileState {
    /// Opened in the editor, at this version.
    Opened { version: i32 },
    /// Not opened: its version and the time it was last modified when that was looked at.
    Unopened { version: i32, modified: u128 },
}

/// The version of a file, and what the compiler knows of it afterwards, given what it knew
/// before and, for a file that is not opened, the time it was last modified: a new file
/// starts at version 0; an opened file keeps its version; a file modified since it was last
/// looked at gets the next version.
pub open spec fn spec_next_version(state: Option<FileState>, modified: u128) -> (i32, FileState) {
    match state {
        None => (0, FileState::Unopened { version: 0, modified }),
        Some(FileState::Opened { version }) => (version, FileState::Opened { version }),
        Some(FileState::Unopened { version, modified: before }) => if modified > before {
            ((version + 1) as i32, FileState::Unopened { version: (version + 1) as i32, modified })
        } else {
            (version, FileState::Unopened { version, modified: before })
        },
    }
}

/// The version of a file (see `spec_next_version`).
pub fn next_version(state: Option<FileState>, modified: u128) -> (r: (i32, FileState))
    requires
        state matches Some(FileState::Unopened { version, modified: before }) ==> (modified > before ==> version < i32::MAX),
    ensures
        r == spec_next_version(state, modified),
{
    match state {
        None => (0, FileState::Unopened { version: 0, modified }),
        Some(FileState::Opened { version }) => (version, FileState::Opened { version }),
        Some(FileState::Unopened { version, modified: before }) => {
            if modified > before {
                (version + 1, FileState::Unopened { version: version + 1, modified })
            } else {
                (version, FileState::Unopened { version, modified: before })
            }
        },
    }
}

/// The lengths of the lines of a text, as its lines are split: at each line feed, with a
/// carriage return before it left out, and with no line after a final line feed.
pub open spec fn spec_line_lengths(s: Seq<char>) -> Seq<nat>
    decreases s.len(),
{
    if s.len() == 0 {
        Seq::empty()
    } else {
        let k = crate::text::spec_find_char(s, '\n', 0);
        if k >= s.len() {
            seq![s.len()]
        } else {
            proof {
                crate::text::lemma_find_char(s, '\n', 0);
            }
            let len: nat = if k > 0 && s[k - 1] == '\r' { (k - 1) as nat } else { k as nat };
            seq![len] + spec_line_lengths(s.subrange(k + 1, s.len() as int))
        }
    }
}

/// The sum of the first `n` lengths (all of them when there are fewer).
pub open spec fn spec_sum_first(lens: Seq<nat>, n: nat) -> nat
    decreases lens.len(),
{
    if lens.len() == 0 || n == 0 {
        0
    } else {
        lens[0] + spec_sum_first(lens.drop_first(), (n - 1) as nat)
    }
}

/// The offset of a position given by a line and a character in it: the lengths of the
/// lines before it, one for each line ending before it, and the character.
pub open spec fn spec_offset(s: Seq<char>, line: nat, character: nat) -> nat {
    spec_sum_first(spec_line_lengths(s), line) + line + character
}

/// The sum of the first `n` line lengths is at most the length of the text.
proof fn lemma_sum_first_bound(s: Seq<char>, n: nat)
    ensures
        spec_sum_first(spec_line_lengths(s), n) <= s.len(),
    decreases s.len(),
{
    if s.len() > 0 && n > 0 {
        let k = crate::text::spec_find_char(s, '\n', 0);
        crate::text::lemma_find_char(s, '\n', 0);
        let lens = spec_line_lengths(s);
        if k < s.len() {
            let rest = s.subrange(k + 1, s.len() as int);
            lemma_sum_first_bound(rest, (n - 1) as nat);
            assert(lens.drop_first() =~= spec_line_lengths(rest));
            assert(lens[0] <= k);
            assert(spec_sum_first(lens, n) == lens[0] + spec_sum_first(lens.drop_first(), (n - 1) as nat));
        } else {
            assert(lens =~= seq![s.len()]);
            assert(lens.drop_first() =~= Seq::<nat>::empty());
            assert(spec_sum_first(lens, n) == lens[0] + spec_sum_first(lens.drop_first(), (n - 1) as nat));
        }
    }
}

/// The sum of the first `n` line lengths of a text, counted from character `from` on.
fn sum_line_lengths(s: &str, from: usize, n: u32) -> (r: usize)
    requires
        from <= s@.len(),
    ensures
        r == spec_sum_first(spec_line_lengths(s@.subrange(from as int, s@.len() as int)), n as nat),
    decreases s@.len() - from,
{
    let len = s.unicode_len();
    let ghost t = s@.subrange(from as int, len as int);
    proof {
        lemma_sum_first_bound(t, n as nat);
    }
    if from == len || n == 0 {
        return 0;
    }
    let k = crate::text::find_char(s, '\n', from);
    proof {
        crate::text::lemma_find_char(s@, '\n', from as int);
        crate::text::lemma_find_char(t, '\n', 0);
        crate::text::lemma_find_char_shift(s@, '\n', from as int);
    }
    if k == len {
        let r = len - from;
        proof {
            assert(spec_line_lengths(t) =~= seq![t.len()]);
        }
        return r;
    }
    let line_len = if k > from && s.get_char(k - 1) == '\r' { k - 1 - from } else { k - from };
    let rest = sum_line_lengths(s, k + 1, n - 1);
    proof {
        let kt = crate::text::spec_find_char(t, '\n', 0);
        assert(kt == k - from);
        assert(t.subrange(kt + 1, t.len() as int) =~= s@.subrange(k + 1, len as int));
        assert(spec_line_lengths(t).drop_first() =~= spec_line_lengths(s@.subrange(k + 1, len as int)));
        if k > from {
            assert(t[kt - 1] == s@[k - 1]);
        }
        assert(spec_line_lengths(t)[0] == line_len);
    }
    line_len + rest
}

/// The offset of the position at `line` and `character` in `text` (see `spec_offset`).
pub fn line_offset(text: &str, line: u32, character: u32) -> (r: usize)
    requires
        text@.len() + line + character <= usize::MAX,
    ensures
        r == spec_offset(text@, line as nat, character as nat),
{
    proof {
        assert(text@.subrange(0, text@.len() as int) =~= text@);
        lemma_sum_first_bound(text@, line as nat);
    }
    let sum = sum_line_lengths(text, 0, line);
    sum + line as usize + character as usize
}

/// The URI under which the diagnostics of a module are published: the document URI of a
/// module found by path (see `try_to_uri`); none for the other modules, whose diagnostics
/// are not published, and none where that URI does not parse.
pub fn diagnostics_uri(url: &ModuleUrl) -> (r: Option<String>)
    ensures
        match url@ {
            ModuleUrlView::PathModule { .. } => match parsed_url(spec_uri_text(url@)) {
                Some(p) => r matches Some(x) && x@ == p.0,
                None => r is None,
            },
            _ => r is None,
        },
{
    match url {
        ModuleUrl::PathModule { .. } => try_to_uri(url),
        _ => None,
    }
}

/// The text of an opened document after an edit replaces the characters from `start` to
/// `end` (each a line and a character in it, see `spec_offset`) with `new_text`.
pub open spec fn spec_change_text(text: Seq<char>, start: Position, end: Position, new_text: Seq<char>) -> Seq<char> {
    let a = spec_offset(text, start.line as nat, start.character as nat);
    let b = spec_offset(text, end.line as nat, end.character as nat);
    text.subrange(0, a as int) + new_text + text.subrange(b as int, text.len() as int)
}

/// Applies an edit to the text of an opened document (see `spec_change_text`); the edit's
/// range must lie within the text, its start before its end.
pub fn change_text(text: &str, start: Position, end: Position, new_text: &str) -> (r: String)
    requires
        text@.len() + start.line + start.character <= usize::MAX,
        text@.len() + end.line + end.character <= usize::MAX,
        spec_offset(text@, start.line as nat, start.character as nat) <= spec_offset(text@, end.line as nat, end.character as nat),
        spec_offset(text@, end.line as nat, end.character as nat) <= text@.len(),
    ensures
        r@ == spec_change_text(text@, start, end, new_text@),
{
    let a = line_offset(text, start.line, start.character);
    let b = line_offset(text, end.line, end.character);
    let n = text.unicode_len();
    let head = crate::text::substring(text, 0, a);
    let tail = crate::text::substring(text, b, n);
    head.concat(new_text).concat(tail.as_str())
}

/// The version of a file that the compiler knows of.
pub open spec fn state_version(f: FileState) -> i32 {
    match f {
        FileState::Opened { version } => version,
        FileState::Unopened { version, .. } => version,
    }
}

/// A file's version never decreases: looking a file up gives its version as it is recorded
/// afterwards, which is at least the version recorded before, and a file that is not opened
/// gets a new version exactly when it was modified since it was last looked at.
pub proof fn law_versions_never_decrease(state: Option<FileState>, modified: u128)
    requires
        state matches Some(FileState::Unopened { version, modified: before }) ==> (modified > before ==> version < i32::MAX),
    ensures
        spec_next_version(state, modified).0 == state_version(spec_next_version(state, modified).1),
        state matches Some(f) ==> spec_next_version(state, modified).0 >= state_version(f),
        state matches Some(FileState::Unopened { version, modified: before })
            ==> (spec_next_version(state, modified).0 > version <==> modified > before),
{
}

} // verus!
