//! The path sandbox that a shell command passes before it is run.
use vstd::prelude::*;

use crate::text::{
    chars_of, cmd_sep, contains, has_prefix, has_sub, push_lit, push_str, quote_sep, seqs, split_by,
    split_chars, starts_with, string_from_chars, strip_by, strip_chars, CharClass,
};

verus! {

/// Directories that system binaries live in; an absolute path under one of them is not
/// treated as a data path.
pub open spec fn system_prefixes() -> Seq<Seq<char>> {
    seq![
        "/usr/"@,
        "/bin/"@,
        "/sbin/"@,
        "/opt/homebrew/"@,
        "/opt/local/"@,
        "/nix/"@,
        "/snap/"@,
        "/proc/"@,
        "/dev/null"@,
    ]
}

/// `tok` lies under a system binary directory.
pub open spec fn under_system_dir(tok: Seq<char>) -> bool {
    exists|k: int| 0 <= k < system_prefixes().len() && starts_with(tok, system_prefixes()[k])
}

pub open spec fn traversal_msg(tok: Seq<char>) -> Seq<char> {
    "'"@ + tok + "' contains '..' (directory traversal)"@
}

pub open spec fn outside_msg(tok: Seq<char>) -> Seq<char> {
    "'"@ + tok + "' is outside the current directory"@
}

pub open spec fn home_msg(tok: Seq<char>) -> Seq<char> {
    "'"@ + tok + "' references the home directory"@
}

/// Why one (quote-stripped) token of a command is refused when the working directory is
/// `cwd`, or `None` when it passes.
pub open spec fn token_block(tok: Seq<char>, cwd: Seq<char>) -> Option<Seq<char>> {
    if tok.len() == 0 || tok[0] == '-' {
        None
    } else if contains(tok, ".."@) {
        Some(traversal_msg(tok))
    } else if tok[0] == '/' && under_system_dir(tok) {
        None
    } else if tok[0] == '/' && !starts_with(tok, cwd) {
        Some(outside_msg(tok))
    } else if tok[0] == '~' {
        Some(home_msg(tok))
    } else {
        None
    }
}

/// The first refusal among the pieces of a command, each taken without its surrounding
/// quotes.
pub open spec fn first_block(pieces: Seq<Seq<char>>, cwd: Seq<char>) -> Option<Seq<char>>
    decreases pieces.len(),
{
    if pieces.len() == 0 {
        None
    } else {
        match token_block(strip_by(pieces[0], quote_sep()), cwd) {
            Some(m) => Some(m),
            None => first_block(pieces.drop_first(), cwd),
        }
    }
}

/// The verdict of the sandbox on the command `cmd` run in the directory `cwd`: the reason
/// of the first token refused, or `None`.
pub open spec fn command_block(cmd: Seq<char>, cwd: Seq<char>) -> Option<Seq<char>> {
    first_block(split_by(cmd, cmd_sep()), cwd)
}

fn quoted_with(tok: &[char], tail: &str) -> (r: String)
    ensures
        r@ == "'"@ + tok@ + tail@,
{
    let mut v: Vec<char> = Vec::new();
    push_lit(&mut v, "'");
    push_str(&mut v, tok);
    push_lit(&mut v, tail);
    string_from_chars(v.as_slice())
}

fn is_under_system_dir(tok: &[char]) -> (r: bool)
    ensures
        r == under_system_dir(tok@),
{
    let prefixes: [&str; 9] = [
        "/usr/",
        "/bin/",
        "/sbin/",
        "/opt/homebrew/",
        "/opt/local/",
        "/nix/",
        "/snap/",
        "/proc/",
        "/dev/null",
    ];
    let mut k: usize = 0;
    while k < 9
        invariant
            k <= 9,
            forall|j: int| 0 <= j < 9 ==> (#[trigger] prefixes@[j])@ == system_prefixes()[j],
            forall|j: int| 0 <= j < k ==> !starts_with(tok@, #[trigger] system_prefixes()[j]),
        decreases 9 - k,
    {
        let p = chars_of(prefixes[k]);
        if has_prefix(tok, p.as_slice()) {
            return true;
        }
        k = k + 1;
    }
    false
}

/// Checks one quote-stripped token.
fn check_token(tok: &[char], cwd: &[char]) -> (r: Option<String>)
    ensures
        r matches Some(m) ==> token_block(tok@, cwd@) == Some(m@),
        r is None ==> token_block(tok@, cwd@) is None,
{
    if tok.len() == 0 || tok[0] == '-' {
        return None;
    }
    let dots = chars_of("..");
    if has_sub(tok, dots.as_slice()) {
        return Some(quoted_with(tok, "' contains '..' (directory traversal)"));
    }
    if tok[0] == '/' {
        if is_under_system_dir(tok) {
            return None;
        }
        if !has_prefix(tok, cwd) {
            return Some(quoted_with(tok, "' is outside the current directory"));
        }
    }
    if tok[0] == '~' {
        return Some(quoted_with(tok, "' references the home directory"));
    }
    None
}

/// Checks that a shell command stays inside the working directory `cwd`.
///
/// The command is cut at whitespace and at `| ; & > < ( )`; each piece, stripped of
/// surrounding quotes, is refused when it contains `..`, when it is an absolute path that
/// is neither under a system binary directory nor under `cwd`, or when it starts with `~`.
/// Pieces that are empty or start with `-` pass. The error names the first refused piece.
pub fn check_command_paths(cmd: &str, cwd: &str) -> (r: Result<(), String>)
    ensures
        r matches Ok(_) ==> command_block(cmd@, cwd@) is None,
        r matches Err(m) ==> command_block(cmd@, cwd@) == Some(m@),
{
    let c = chars_of(cmd);
    let w = chars_of(cwd);
    let pieces = split_chars(c.as_slice(), CharClass::Command);
    let ghost all = seqs(pieces@);
    let mut i: usize = 0;
    assert(all.subrange(0, all.len() as int) =~= all);
    while i < pieces.len()
        invariant
            i <= pieces.len(),
            all == seqs(pieces@),
            all == split_by(c@, cmd_sep()),
            w@ == cwd@,
            c@ == cmd@,
            first_block(all, w@) == first_block(all.subrange(i as int, all.len() as int), w@),
        decreases pieces.len() - i,
    {
        let ghost rest = all.subrange(i as int, all.len() as int);
        assert(rest[0] == pieces@[i as int]@);
        assert(rest.drop_first() =~= all.subrange(i + 1, all.len() as int));
        let tok = strip_chars(pieces[i].as_slice(), CharClass::Quote);
        match check_token(tok.as_slice(), w.as_slice()) {
            Some(m) => {
                return Err(m);
            },
            None => {},
        }
        i = i + 1;
    }
    Ok(())
}

// ── laws of the sandbox ───────────────────────────────────────────────────────

/// The tokens of a command: its pieces, each without its surrounding quotes.
pub open spec fn tokens(cmd: Seq<char>) -> Seq<Seq<char>> {
    split_by(cmd, cmd_sep()).map_values(|p: Seq<char>| strip_by(p, quote_sep()))
}

proof fn lemma_first_block(pieces: Seq<Seq<char>>, cwd: Seq<char>)
    ensures
        first_block(pieces, cwd) is None <==> forall|i: int|
            0 <= i < pieces.len() ==> #[trigger] token_block(strip_by(pieces[i], quote_sep()), cwd) is None,
    decreases pieces.len(),
{
    if pieces.len() > 0 {
        lemma_first_block(pieces.drop_first(), cwd);
        if first_block(pieces, cwd) is None {
            assert forall|i: int| 0 <= i < pieces.len() implies #[trigger] token_block(
                strip_by(pieces[i], quote_sep()),
                cwd,
            ) is None by {
                if i > 0 {
                    assert(pieces[i] == pieces.drop_first()[i - 1]);
                }
            }
        } else if token_block(strip_by(pieces[0], quote_sep()), cwd) is None {
            let i = choose|i: int|
                0 <= i < pieces.len() - 1 && !(token_block(
                    strip_by(#[trigger] pieces.drop_first()[i], quote_sep()),
                    cwd,
                ) is None);
            assert(pieces.drop_first()[i] == pieces[i + 1]);
        }
    }
}

/// A command passes the sandbox exactly when each of its tokens does.
pub proof fn law_command_passes_iff_every_token_passes(cmd: Seq<char>, cwd: Seq<char>)
    ensures
        command_block(cmd, cwd) is None <==> forall|i: int|
            0 <= i < tokens(cmd).len() ==> #[trigger] token_block(tokens(cmd)[i], cwd) is None,
{
    let pieces = split_by(cmd, cmd_sep());
    lemma_first_block(pieces, cwd);
    assert forall|i: int| 0 <= i < tokens(cmd).len() implies tokens(cmd)[i] == strip_by(
        pieces[i],
        quote_sep(),
    ) by {}
    if command_block(cmd, cwd) is None {
        assert forall|i: int| 0 <= i < tokens(cmd).len() implies #[trigger] token_block(
            tokens(cmd)[i],
            cwd,
        ) is None by {
            assert(token_block(strip_by(pieces[i], quote_sep()), cwd) is None);
        }
    } else {
        let i = choose|i: int|
            0 <= i < pieces.len() && !(#[trigger] token_block(strip_by(pieces[i], quote_sep()), cwd) is None);
        assert(!(token_block(tokens(cmd)[i], cwd) is None));
    }
}

/// No token that climbs out with `..` passes (unless it is an option, starting with `-`).
pub proof fn law_traversal_refused(cmd: Seq<char>, cwd: Seq<char>, i: int)
    requires
        0 <= i < tokens(cmd).len(),
        tokens(cmd)[i].len() > 0,
        tokens(cmd)[i][0] != '-',
        contains(tokens(cmd)[i], ".."@),
    ensures
        command_block(cmd, cwd) is Some,
{
    law_command_passes_iff_every_token_passes(cmd, cwd);
    assert(token_block(tokens(cmd)[i], cwd) is Some);
}

/// No token that starts at the home directory with `~` passes.
pub proof fn law_home_refused(cmd: Seq<char>, cwd: Seq<char>, i: int)
    requires
        0 <= i < tokens(cmd).len(),
        tokens(cmd)[i].len() > 0,
        tokens(cmd)[i][0] == '~',
    ensures
        command_block(cmd, cwd) is Some,
{
    law_command_passes_iff_every_token_passes(cmd, cwd);
    assert(token_block(tokens(cmd)[i], cwd) is Some);
}

/// The system binary directories, spelled out: `tok` begins with `/usr/`, `/bin/`,
/// `/sbin/`, `/opt/homebrew/`, `/opt/local/`, `/nix/`, `/snap/`, `/proc/` or `/dev/null`.
pub open spec fn in_system_dirs(tok: Seq<char>) -> bool {
    ||| starts_with(tok, "/usr/"@)
    ||| starts_with(tok, "/bin/"@)
    ||| starts_with(tok, "/sbin/"@)
    ||| starts_with(tok, "/opt/homebrew/"@)
    ||| starts_with(tok, "/opt/local/"@)
    ||| starts_with(tok, "/nix/"@)
    ||| starts_with(tok, "/snap/"@)
    ||| starts_with(tok, "/proc/"@)
    ||| starts_with(tok, "/dev/null"@)
}

proof fn lemma_system_dirs(tok: Seq<char>)
    ensures
        under_system_dir(tok) <==> in_system_dirs(tok),
        in_system_dirs(tok) ==> tok.len() > 0 && tok[0] == '/',
{
    let ps = system_prefixes();
    reveal_strlit("/usr/");
    reveal_strlit("/bin/");
    reveal_strlit("/sbin/");
    reveal_strlit("/opt/homebrew/");
    reveal_strlit("/opt/local/");
    reveal_strlit("/nix/");
    reveal_strlit("/snap/");
    reveal_strlit("/proc/");
    reveal_strlit("/dev/null");
    assert(ps[0] == "/usr/"@);
    assert(ps[1] == "/bin/"@);
    assert(ps[2] == "/sbin/"@);
    assert(ps[3] == "/opt/homebrew/"@);
    assert(ps[4] == "/opt/local/"@);
    assert(ps[5] == "/nix/"@);
    assert(ps[6] == "/snap/"@);
    assert(ps[7] == "/proc/"@);
    assert(ps[8] == "/dev/null"@);
    if under_system_dir(tok) {
        let k = choose|k: int| 0 <= k < ps.len() && starts_with(tok, ps[k]);
        assert(0 <= k < 9);
    }
    if in_system_dirs(tok) {
        if starts_with(tok, "/usr/"@) {
            assert(starts_with(tok, ps[0]));
        } else if starts_with(tok, "/bin/"@) {
            assert(starts_with(tok, ps[1]));
        } else if starts_with(tok, "/sbin/"@) {
            assert(starts_with(tok, ps[2]));
        } else if starts_with(tok, "/opt/homebrew/"@) {
            assert(starts_with(tok, ps[3]));
        } else if starts_with(tok, "/opt/local/"@) {
            assert(starts_with(tok, ps[4]));
        } else if starts_with(tok, "/nix/"@) {
            assert(starts_with(tok, ps[5]));
        } else if starts_with(tok, "/snap/"@) {
            assert(starts_with(tok, ps[6]));
        } else if starts_with(tok, "/proc/"@) {
            assert(starts_with(tok, ps[7]));
        } else {
            assert(starts_with(tok, ps[8]));
        }
        let k = choose|k: int| 0 <= k < ps.len() && starts_with(tok, ps[k]);
        assert(tok[0] == tok.subrange(0, ps[k].len() as int)[0]);
    }
}

/// A path under a system binary directory (`/usr/`, `/bin/`, `/sbin/`, `/opt/homebrew/`,
/// `/opt/local/`, `/nix/`, `/snap/`, `/proc/`, or `/dev/null`) passes the sandbox in any
/// working directory unless it holds `..`; any other absolute path without `..` passes only
/// when it begins with the working directory, and is otherwise refused as outside it.
pub proof fn law_absolute_paths(tok: Seq<char>, cwd: Seq<char>)
    requires
        !contains(tok, ".."@),
    ensures
        in_system_dirs(tok) ==> token_block(tok, cwd) is None,
        tok.len() > 0 && tok[0] == '/' && !in_system_dirs(tok) ==> (token_block(tok, cwd) is None
            <==> starts_with(tok, cwd)),
        tok.len() > 0 && tok[0] == '/' && !in_system_dirs(tok) && !starts_with(tok, cwd)
            ==> token_block(tok, cwd) == Some(outside_msg(tok)),
        tok.len() == 0 || (tok[0] != '/' && tok[0] != '~') ==> token_block(tok, cwd) is None,
{
    lemma_system_dirs(tok);
}

} // verus!
