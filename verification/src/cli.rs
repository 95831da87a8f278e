//! The pure decisions of the command line: argument rewriting, `KEY,VALUE` and list flags,
//! where the input comes from and where the result goes.
use crate::errors::{view_result, Fault, Result, XshapeError};
use crate::text::{chars_of, debug_quoted, debug_text, split_on, split_text, substring};
use vstd::prelude::*;
use vstd::string::*;

verus! {

/// sed attaches the in-place backup suffix to the flag (`-i.bak`); the parser wants it after
/// `=`. `-i<suffix>` becomes `-i=<suffix>`; bare `-i` and every other argument pass unchanged.
pub open spec fn spec_normalize_arg(a: Seq<char>) -> Seq<char> {
    if a.len() > 2 && a[0] == '-' && a[1] == 'i' && a[2] != '=' {
        seq!['-', 'i', '='] + a.skip(2)
    } else {
        a
    }
}

/// Rewrite one argument as `spec_normalize_arg` says.
fn normalize_arg(a: String) -> (res: String)
    ensures
        res@ == spec_normalize_arg(a@),
{
    let cs = chars_of(a.as_str());
    if cs.len() > 2 && cs[0] == '-' && cs[1] == 'i' && cs[2] != '=' {
        let mut out = String::from_str("-i=");
        out.append(substring(a.as_str(), 2, cs.len()).as_str());
        proof {
            reveal_strlit("-i=");
        }
        assert(out@ =~= seq!['-', 'i', '='] + a@.skip(2));
        out
    } else {
        a
    }
}

/// Rewrite the attached short form `-i<suffix>` to `-i=<suffix>` in every argument.
pub fn normalize_in_place(args: Vec<String>) -> (res: Vec<String>)
    ensures
        res@.len() == args@.len(),
        forall|i: int| 0 <= i < args@.len() ==> #[trigger] res@[i]@ == spec_normalize_arg(args@[i]@),
{
    let mut out: Vec<String> = Vec::new();
    let n = args.len();
    let mut i: usize = 0;
    while i < n
        invariant
            i <= n,
            n == args@.len(),
            out@.len() == i,
            forall|k: int| 0 <= k < i ==> #[trigger] out@[k]@ == spec_normalize_arg(args@[k]@),
        decreases n - i,
    {
        let a = args[i].clone();
        out.push(normalize_arg(a));
        i = i + 1;
    }
    out
}

/// The message for a malformed `KEY,VALUE` flag.
pub open spec fn pair_message(flag: Seq<char>, s: Seq<char>) -> Seq<char> {
    flag + " takes two comma-separated names, KEY,VALUE (got "@ + debug_text(s) + ")"@
}

/// The first comma in a text.
pub open spec fn first_comma(s: Seq<char>, i: int) -> Option<int>
    decreases s.len() - i,
{
    if i < 0 || i >= s.len() {
        None
    } else if s[i] == ',' {
        Some(i)
    } else {
        first_comma(s, i + 1)
    }
}

/// What a `KEY,VALUE` flag means: exactly two comma-separated names, both non-empty.
pub open spec fn spec_parse_pair(s: Seq<char>, flag: Seq<char>) -> core::result::Result<(Seq<char>, Seq<char>), Fault> {
    match first_comma(s, 0) {
        Some(k) if k > 0 && k + 1 < s.len() && first_comma(s, k + 1) is None => Ok((s.take(k), s.skip(k + 1))),
        _ => Err(Fault::Input(pair_message(flag, s))),
    }
}

/// Split a `KEY,VALUE` flag into its two names, requiring exactly one comma and a non-empty
/// name on each side of it.
pub fn parse_pair(s: &str, flag: &str) -> (res: Result<(String, String)>)
    ensures
        match res {
            Ok((a, b)) => spec_parse_pair(s@, flag@) == Ok::<(Seq<char>, Seq<char>), Fault>((a@, b@)),
            Err(e) => spec_parse_pair(s@, flag@) == Err::<(Seq<char>, Seq<char>), Fault>(e@),
        },
{
    let cs = chars_of(s);
    let n = cs.len();
    let mut k: usize = 0;
    while k < n && cs[k] != ','
        invariant
            k <= n,
            n == cs@.len(),
            cs@ == s@,
            first_comma(s@, 0) == first_comma(s@, k as int),
        decreases n - k,
    {
        k = k + 1;
    }
    let mut j: usize = n;
    if k < n {
        j = k + 1;
        while j < n && cs[j] != ','
            invariant
                k < n,
                k + 1 <= j <= n,
                n == cs@.len(),
                cs@ == s@,
                first_comma(s@, k + 1) == first_comma(s@, j as int),
            decreases n - j,
        {
            j = j + 1;
        }
    }
    if k == n || k == 0 || k + 1 == n || j < n {
        let mut m = String::from_str(flag);
        m.append(" takes two comma-separated names, KEY,VALUE (got ");
        m.append(debug_quoted(s).as_str());
        m.append(")");
        return Err(XshapeError::Input(m));
    }
    let a = substring(s, 0, k);
    let b = substring(s, k + 1, n);
    assert(a@ =~= s@.take(k as int));
    assert(b@ =~= s@.skip(k + 1));
    Ok((a, b))
}

/// Split a comma-separated list into its names, empty names kept as they are.
pub fn parse_list(s: &str) -> (res: Vec<String>)
    ensures
        res.deep_view() == split_on(s@, seq![',']),
{
    let comma = ",";
    proof {
        reveal_strlit(",");
    }
    assert(comma@ =~= seq![',']);
    split_text(s, comma)
}

/// Where the input comes from: the file named, or standard input when no file or `-` is given.
pub open spec fn spec_input_path(file: Option<Seq<char>>) -> Option<Seq<char>> {
    match file {
        Some(f) => if f == seq!['-'] {
            None
        } else {
            Some(f)
        },
        None => None,
    }
}

/// The file to read, or `None` for standard input (no file, or `-`).
pub fn input_path(file: Option<String>) -> (res: Option<String>)
    ensures
        match res {
            Some(p) => spec_input_path(match file {
                Some(f) => Some(f@),
                None => None,
            }) == Some(p@),
            None => spec_input_path(match file {
                Some(f) => Some(f@),
                None => None,
            }) is None,
        },
{
    match file {
        None => None,
        Some(f) => {
            let cs = chars_of(f.as_str());
            if cs.len() == 1 && cs[0] == '-' {
                assert(f@ =~= seq!['-']);
                None
            } else {
                assert(!(f@ =~= seq!['-']));
                Some(f)
            }
        },
    }
}

/// Where the reshaped table goes.
#[derive(Debug)]
pub enum Destination {
    /// Standard output: the preview.
    Stdout,
    /// Back into the source file, after copying it to `backup` when a suffix was given.
    File { path: String, backup: Option<String> },
}

/// The message for `-i` over standard input.
pub open spec fn in_place_stdin_message() -> Seq<char> {
    "-i edits a file in place \u{2014} it needs a file argument, not piped stdin"@
}

/// The mathematical picture of a destination.
pub enum Target {
    Stdout,
    File(Seq<char>, Option<Seq<char>>),
}

impl View for Destination {
    type V = Target;

    open spec fn view(&self) -> Target {
        match self {
            Destination::Stdout => Target::Stdout,
            Destination::File { path, backup } => Target::File(
                path@,
                match backup {
                    Some(b) => Some(b@),
                    None => None,
                },
            ),
        }
    }
}

/// Where the result goes: standard output without `-i`; with `-i` and a source file, that
/// file, backed up first to `<file><suffix>` when the suffix is not empty; with `-i` and
/// standard input, a refusal.
pub open spec fn spec_destination(in_place: Option<Seq<char>>, source: Option<Seq<char>>) -> core::result::Result<Target, Fault> {
    match (in_place, source) {
        (None, _) => Ok(Target::Stdout),
        (Some(_), None) => Err(Fault::Input(in_place_stdin_message())),
        (Some(suffix), Some(path)) => Ok(
            Target::File(
                path,
                if suffix.len() == 0 {
                    None
                } else {
                    Some(path + suffix)
                },
            ),
        ),
    }
}

/// An optional text by its view.
pub open spec fn opt_view(o: Option<String>) -> Option<Seq<char>> {
    match o {
        Some(s) => Some(s@),
        None => None,
    }
}

/// Decide where the result goes; see `spec_destination`.
pub fn destination(in_place: Option<String>, source: Option<String>) -> (res: Result<Destination>)
    ensures
        view_result(res) == spec_destination(opt_view(in_place), opt_view(source)),
{
    match (in_place, source) {
        (None, _) => Ok(Destination::Stdout),
        (Some(_), None) => Err(XshapeError::Input(String::from_str(
            "-i edits a file in place \u{2014} it needs a file argument, not piped stdin",
        ))),
        (Some(suffix), Some(path)) => {
            let backup = if suffix.unicode_len() == 0 {
                None
            } else {
                let mut b = path.clone();
                b.append(suffix.as_str());
                Some(b)
            };
            Ok(Destination::File { path, backup })
        },
    }
}

} // verus!
