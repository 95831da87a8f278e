//! The decisions of `--install-skill` and `--uninstall-skill`: the version stamp written under
//! the skill's YAML frontmatter, reading that stamp back, the exact bytes an install writes,
//! whether an install writes at all, what to remove, and the lines each reports. Reading and
//! writing the files is left to the caller.
use crate::cli::opt_view;
use crate::errors::{view_result, Fault, Result, XshapeError};
use crate::skill_text::{REFERENCE_MD, SKILL_MD};
use crate::text::{chars_of, lemma_split_from_nonempty, occurs_at, occurs_at_exec, split_from, split_on, split_text, substring};
use vstd::prelude::*;
use vstd::string::*;

verus! {

/// The stamp placed in an installed skill, naming the version it documents.
pub open spec fn stamp_note(version: Seq<char>) -> Seq<char> {
    "> This skill documents xshape "@ + version
        + ". If `xshape -V` reports a different\n> version, the skill is stale \u{2014} run `xshape --install-skill` to refresh it.\n"@
}

/// The first position at or after `i` where `pat` occurs in `s`.
pub open spec fn find_from(s: Seq<char>, pat: Seq<char>, i: int) -> Option<int>
    decreases s.len() - i,
{
    if i < 0 || i >= s.len() || i + pat.len() > s.len() {
        None
    } else if occurs_at(s, pat, i) {
        Some(i)
    } else {
        find_from(s, pat, i + 1)
    }
}

/// The YAML fence that opens and closes the frontmatter.
pub open spec fn fence() -> Seq<char> {
    seq!['-', '-', '-', '\n']
}

/// The line break and fence that close the frontmatter.
pub open spec fn closing_fence() -> Seq<char> {
    seq!['\n', '-', '-', '-', '\n']
}

/// Where the frontmatter ends (just after its closing fence), if the body opens with one.
pub open spec fn frontmatter_end(body: Seq<char>) -> Option<int> {
    if body.len() >= 4 && body.take(4) == fence() {
        match find_from(body, closing_fence(), 4) {
            Some(j) => Some(j + 5),
            None => None,
        }
    } else {
        None
    }
}

/// A body with its version stamp: directly under the frontmatter, never inside it; at the top
/// when there is no frontmatter.
pub open spec fn spec_stamp(body: Seq<char>, version: Seq<char>) -> Seq<char> {
    match frontmatter_end(body) {
        Some(e) => body.take(e) + seq!['\n'] + stamp_note(version) + body.skip(e),
        None => stamp_note(version) + seq!['\n'] + body,
    }
}

/// `find_from` answers with a real occurrence, and there is none before it.
pub proof fn lemma_find_from(s: Seq<char>, pat: Seq<char>, i: int)
    ensures
        find_from(s, pat, i) matches Some(j) ==> i <= j && occurs_at(s, pat, j),
    decreases s.len() - i,
{
    if i < 0 || i >= s.len() || i + pat.len() > s.len() {
    } else if occurs_at(s, pat, i) {
    } else {
        lemma_find_from(s, pat, i + 1);
    }
}

/// Insert the version stamp directly after the YAML frontmatter, or at the top without one.
///
/// Outside the frontmatter, never inside it: the description there decides whether the skill
/// fires at all, and a stamp that broke its parse would take the whole skill down.
pub fn stamp(body: &str, version: &str) -> (res: String)
    ensures
        res@ == spec_stamp(body@, version@),
{
    let cs = chars_of(body);
    let n = cs.len();
    let mut note = String::from_str("> This skill documents xshape ");
    note.append(version);
    note.append(
        ". If `xshape -V` reports a different\n> version, the skill is stale \u{2014} run `xshape --install-skill` to refresh it.\n",
    );
    let ghost want_note = stamp_note(version@);
    assert(note@ == want_note);
    if n >= 4 && cs[0] == '-' && cs[1] == '-' && cs[2] == '-' && cs[3] == '\n' {
        assert(cs@.take(4) =~= fence());
        let pat = vec!['\n', '-', '-', '-', '\n'];
        assert(pat@ =~= closing_fence());
        let mut i: usize = 4;
        while i < n && 5 <= n - i
            invariant
                4 <= i <= n,
                n == cs@.len(),
                cs@ == body@,
                pat@ == closing_fence(),
                note@ == stamp_note(version@),
                body@.len() >= 4,
                body@.take(4) == fence(),
                find_from(body@, closing_fence(), 4) == find_from(body@, closing_fence(), i as int),
            decreases n - i,
        {
            if occurs_at_exec(&cs, &pat, i) {
                let e = i + 5;
                proof { lemma_find_from(body@, closing_fence(), i as int); }
                let mut out = substring(body, 0, e);
                out.append("\n");
                out.append(note.as_str());
                out.append(substring(body, e, n).as_str());
                proof {
                    reveal_strlit("\n");
                    assert(body@.subrange(0, e as int) =~= body@.take(e as int));
                    assert(body@.subrange(e as int, n as int) =~= body@.skip(e as int));
                    assert("\n"@ =~= seq!['\n']);
                }
                return out;
            }
            i = i + 1;
        }
    } else {
        assert(!(cs@.take(4) =~= fence()) || n < 4);
    }
    let mut out = note;
    out.append("\n");
    out.append(body);
    proof {
        reveal_strlit("\n");
        assert("\n"@ =~= seq!['\n']);
    }
    out
}

/// The line with a trailing carriage return removed, if it has one.
pub open spec fn strip_cr(s: Seq<char>) -> Seq<char> {
    if s.len() > 0 && s.last() == '\r' {
        s.drop_last()
    } else {
        s
    }
}

/// The lines of a text as `str::lines` gives them: split at each `\n`, a `\r` before the
/// `\n` dropped, and no empty line after a final `\n`.
pub open spec fn text_lines(s: Seq<char>) -> Seq<Seq<char>> {
    let ps = split_on(s, seq!['\n']);
    let init = Seq::new((ps.len() - 1) as nat, |i: int| strip_cr(ps[i]));
    if ps.last().len() == 0 {
        init
    } else {
        init.push(ps.last())
    }
}

/// The start of the stamp line, up to the version.
pub open spec fn stamp_prefix() -> Seq<char> {
    "> This skill documents xshape "@
}

/// What follows the stamp prefix on the first line at or after `i` that starts with it.
pub open spec fn stamped_rest(lines: Seq<Seq<char>>, i: int) -> Option<Seq<char>>
    decreases lines.len() - i,
{
    if i < 0 || i >= lines.len() {
        None
    } else if lines[i].len() >= stamp_prefix().len() && lines[i].take(stamp_prefix().len() as int)
        == stamp_prefix() {
        Some(lines[i].skip(stamp_prefix().len() as int))
    } else {
        stamped_rest(lines, i + 1)
    }
}

/// Unicode `White_Space`, as `char::is_whitespace` tests it.
pub open spec fn is_space(c: char) -> bool {
    let u = c as u32;
    ||| 9 <= u <= 13
    ||| u == 32
    ||| u == 0x85
    ||| u == 0xA0
    ||| u == 0x1680
    ||| 0x2000 <= u <= 0x200A
    ||| u == 0x2028
    ||| u == 0x2029
    ||| u == 0x202F
    ||| u == 0x205F
    ||| u == 0x3000
}

/// The first position at or after `i` that is not white space (or the end).
pub open spec fn skip_space(s: Seq<char>, i: int) -> int
    decreases s.len() - i,
{
    if 0 <= i < s.len() && is_space(s[i]) {
        skip_space(s, i + 1)
    } else {
        i
    }
}

/// The first position at or after `i` that is white space (or the end).
pub open spec fn word_end(s: Seq<char>, i: int) -> int
    decreases s.len() - i,
{
    if 0 <= i < s.len() && !is_space(s[i]) {
        word_end(s, i + 1)
    } else {
        i
    }
}

/// The first white-space-separated word, as `split_whitespace().next()` gives it.
pub open spec fn first_word(s: Seq<char>) -> Option<Seq<char>> {
    let a = skip_space(s, 0);
    if a >= s.len() {
        None
    } else {
        Some(s.subrange(a, word_end(s, a)))
    }
}

/// The text with every trailing `.` removed.
pub open spec fn trim_dots(s: Seq<char>) -> Seq<char>
    decreases s.len(),
{
    if s.len() > 0 && s.last() == '.' {
        trim_dots(s.drop_last())
    } else {
        s
    }
}

/// The version a stamp names: on the first line that starts with the stamp prefix, the first
/// word after it, trailing dots removed.
pub open spec fn spec_stamped_version(body: Seq<char>) -> Option<Seq<char>> {
    match stamped_rest(text_lines(body), 0) {
        None => None,
        Some(rest) => match first_word(rest) {
            None => None,
            Some(w) => Some(trim_dots(w)),
        },
    }
}

/// Whether a character is white space.
pub fn is_space_exec(c: char) -> (res: bool)
    ensures
        res == is_space(c),
{
    let u = c as u32;
    (9 <= u && u <= 13) || u == 32 || u == 0x85 || u == 0xA0 || u == 0x1680 || (0x2000 <= u && u
        <= 0x200A) || u == 0x2028 || u == 0x2029 || u == 0x202F || u == 0x205F || u == 0x3000
}

/// The first word of a text, if it has one.
fn first_word_exec(s: &str) -> (res: Option<String>)
    ensures
        match res {
            Some(w) => first_word(s@) == Some(w@),
            None => first_word(s@) is None,
        },
{
    let cs = chars_of(s);
    let n = cs.len();
    let mut a: usize = 0;
    while a < n && is_space_exec(cs[a])
        invariant
            a <= n,
            n == cs@.len(),
            cs@ == s@,
            skip_space(s@, 0) == skip_space(s@, a as int),
        decreases n - a,
    {
        a = a + 1;
    }
    if a >= n {
        return None;
    }
    let mut b: usize = a;
    while b < n && !is_space_exec(cs[b])
        invariant
            a <= b <= n,
            n == cs@.len(),
            cs@ == s@,
            word_end(s@, a as int) == word_end(s@, b as int),
        decreases n - b,
    {
        b = b + 1;
    }
    Some(substring(s, a, b))
}

/// The text with every trailing `.` removed.
fn trim_dots_exec(s: &str) -> (res: String)
    ensures
        res@ == trim_dots(s@),
{
    let cs = chars_of(s);
    let mut e: usize = cs.len();
    assert(s@.take(e as int) =~= s@);
    while e > 0 && cs[e - 1] == '.'
        invariant
            e <= cs@.len(),
            cs@ == s@,
            trim_dots(s@) == trim_dots(s@.take(e as int)),
        decreases e,
    {
        assert(s@.take(e as int).drop_last() =~= s@.take(e - 1));
        e = e - 1;
    }
    assert(trim_dots(s@.take(e as int)) == s@.take(e as int));
    assert(s@.subrange(0, e as int) =~= s@.take(e as int));
    substring(s, 0, e)
}

/// Read the version back out of a stamp written by an earlier install.
pub fn stamped_version(body: &str) -> (res: Option<String>)
    ensures
        match res {
            Some(v) => spec_stamped_version(body@) == Some(v@),
            None => spec_stamped_version(body@) is None,
        },
{
    let newline = "\n";
    proof {
        reveal_strlit("\n");
    }
    assert(newline@ =~= seq!['\n']);
    let pieces = split_text(body, newline);
    let ghost ps = split_on(body@, seq!['\n']);
    proof {
        crate::text::lemma_join_split(body@, seq!['\n']);
    }
    let ghost lines = text_lines(body@);
    let np = pieces.len();
    let prefix = String::from_str("> This skill documents xshape ");
    let pchars = chars_of(prefix.as_str());
    let pl = pchars.len();
    let mut i: usize = 0;
    while i < np
        invariant
            i <= np,
            np == ps.len(),
            np >= 1,
            pieces.deep_view() == ps,
            ps == split_on(body@, seq!['\n']),
            lines == text_lines(body@),
            pchars@ == stamp_prefix(),
            pl == pchars@.len(),
            i < np - 1 || ps.last().len() > 0 ==> stamped_rest(lines, 0) == stamped_rest(lines, i as int),
            i == np - 1 && ps.last().len() == 0 ==> stamped_rest(lines, 0) is None,
            i == np ==> stamped_rest(lines, 0) is None,
        decreases np - i,
    {
        let piece = pieces[i].as_str();
        let pc = chars_of(piece);
        let m = pc.len();
        if i + 1 == np && m == 0 {
            assert(lines.len() == np - 1);
            return None;
        }
        let line_end = if i + 1 < np && m > 0 && pc[m - 1] == '\r' {
            m - 1
        } else {
            m
        };
        let ghost line = lines[i as int];
        assert(line =~= pc@.take(line_end as int));
        let mut matches = line_end >= pl;
        let mut k: usize = 0;
        while matches && k < pl
            invariant
                k <= pl,
                pl == pchars@.len(),
                line_end <= pc@.len(),
                matches ==> line_end >= pl,
                matches ==> pc@.take(k as int) == pchars@.take(k as int),
                !matches ==> !(line.len() >= pl && line.take(pl as int) == pchars@),
                line =~= pc@.take(line_end as int),
            decreases pl - k + (if matches {
                1int
            } else {
                0int
            }),
        {
            if pc[k] != pchars[k] {
                matches = false;
                assert(line.take(pl as int)[k as int] != pchars@[k as int]);
            } else {
                k = k + 1;
                assert(pc@.take(k as int) =~= pc@.take(k - 1).push(pc@[k - 1]));
                assert(pchars@.take(k as int) =~= pchars@.take(k - 1).push(pchars@[k - 1]));
            }
        }
        if matches {
            assert(line.take(pl as int) =~= pchars@);
            let rest = substring(piece, pl, line_end);
            assert(rest@ =~= line.skip(pl as int));
            return match first_word_exec(rest.as_str()) {
                None => None,
                Some(w) => Some(trim_dots_exec(w.as_str())),
            };
        }
        i = i + 1;
    }
    None
}

/// The files an install writes and their exact text: `SKILL.md` stamped with the version, and
/// `reference.md` as shipped.
pub fn payload(version: &str) -> (res: Vec<(String, String)>)
    ensures
        res@.len() == 2,
        res@[0].0@ == "SKILL.md"@,
        res@[0].1@ == spec_stamp(SKILL_MD@, version@),
        res@[1].0@ == "reference.md"@,
        res@[1].1@ == REFERENCE_MD@,
{
    let mut out: Vec<(String, String)> = Vec::new();
    out.push((String::from_str("SKILL.md"), stamp(SKILL_MD, version)));
    out.push((String::from_str("reference.md"), String::from_str(REFERENCE_MD)));
    out
}

/// What an install did.
#[derive(Debug)]
pub enum Outcome {
    /// The skill was written where none was before.
    Installed,
    /// Every file on disk already held exactly what would be written.
    AlreadyCurrent,
    /// The skill was rewritten; the version the old stamp named, when it could be read back.
    Updated(Option<String>),
    /// The destination is a symbolic link, left alone; the link's target.
    Linked(String),
}

/// Every file on disk holds exactly the text an install would write.
pub open spec fn skill_current(files: Seq<(String, String)>, on_disk: Seq<Option<String>>) -> bool {
    forall|i: int| 0 <= i < files.len() ==> (#[trigger] on_disk[i] matches Some(t) && t@ == files[i].1@)
}

/// Whether every file on disk already holds exactly the text an install would write.
pub fn skill_is_current(files: &Vec<(String, String)>, on_disk: &Vec<Option<String>>) -> (res: bool)
    requires
        files@.len() == on_disk@.len(),
    ensures
        res == skill_current(files@, on_disk@),
{
    let n = files.len();
    let mut i: usize = 0;
    while i < n
        invariant
            i <= n,
            n == files@.len(),
            n == on_disk@.len(),
            forall|k: int| 0 <= k < i ==> (#[trigger] on_disk@[k] matches Some(t) && t@ == files@[k].1@),
        decreases n - i,
    {
        match &on_disk[i] {
            None => return false,
            Some(t) => if *t != files[i].1 {
                return false;
            },
        }
        i = i + 1;
    }
    true
}

/// What an install decides before writing: a symbolic link at the destination is left alone
/// (it points the skill at a working tree that a copy would disconnect); a skill whose every
/// file already holds the right text is current and nothing is written; otherwise the files are
/// written (`None`).
pub open spec fn spec_before_write(link_target: Option<Seq<char>>, current: bool) -> Option<OutcomeView> {
    match link_target {
        Some(t) => Some(OutcomeView::Linked(t)),
        None => if current {
            Some(OutcomeView::AlreadyCurrent)
        } else {
            None
        },
    }
}

/// The mathematical picture of an install's outcome.
pub enum OutcomeView {
    Installed,
    AlreadyCurrent,
    Updated(Option<Seq<char>>),
    Linked(Seq<char>),
}

impl View for Outcome {
    type V = OutcomeView;

    open spec fn view(&self) -> OutcomeView {
        match self {
            Outcome::Installed => OutcomeView::Installed,
            Outcome::AlreadyCurrent => OutcomeView::AlreadyCurrent,
            Outcome::Updated(v) => OutcomeView::Updated(
                match v {
                    Some(s) => Some(s@),
                    None => None,
                },
            ),
            Outcome::Linked(t) => OutcomeView::Linked(t@),
        }
    }
}

/// Decide, before writing, whether an install stops: at a symbolic link (`link_target`), or
/// because the skill on disk is already `current`.
pub fn before_write(link_target: Option<String>, current: bool) -> (res: Option<Outcome>)
    ensures
        match res {
            Some(o) => spec_before_write(opt_view(link_target), current) == Some(o@),
            None => spec_before_write(opt_view(link_target), current) is None,
        },
{
    match link_target {
        Some(t) => Some(Outcome::Linked(t)),
        None => if current {
            Some(Outcome::AlreadyCurrent)
        } else {
            None
        },
    }
}


/// What a write reports: a fresh install, or an update naming the version the old `SKILL.md`
/// was stamped with.
pub fn write_outcome(fresh: bool, previous_skill: Option<String>) -> (res: Outcome)
    ensures
        fresh ==> res is Installed,
        !fresh ==> match res {
            Outcome::Updated(Some(v)) => previous_skill matches Some(p) && spec_stamped_version(p@) == Some(v@),
            Outcome::Updated(None) => previous_skill matches Some(p) ==> spec_stamped_version(p@) is None,
            _ => false,
        },
{
    if fresh {
        Outcome::Installed
    } else {
        match &previous_skill {
            Some(p) => Outcome::Updated(stamped_version(p.as_str())),
            None => Outcome::Updated(None),
        }
    }
}


/// Scanning for `sep` in `s` from `i` cuts the same pieces as scanning `s.skip(k)` from
/// `i - k`: only the text from the current piece on matters.
proof fn lemma_split_from_skip(s: Seq<char>, sep: Seq<char>, start: int, i: int, k: int)
    requires
        0 <= k <= start <= i,
        start <= s.len(),
    ensures
        split_from(s, sep, start, i) == split_from(s.skip(k), sep, start - k, i - k),
    decreases s.len() - i,
{
    let t = s.skip(k);
    if sep.len() == 0 || i + sep.len() > s.len() {
        assert(s.subrange(start, s.len() as int) =~= t.subrange(start - k, t.len() as int));
    } else {
        assert(s.subrange(i, i + sep.len()) =~= t.subrange(i - k, i - k + sep.len()));
        if occurs_at(s, sep, i) {
            lemma_split_from_skip(s, sep, i + sep.len(), i + sep.len(), k);
            assert(s.subrange(start, i) =~= t.subrange(start - k, i - k));
        } else {
            lemma_split_from_skip(s, sep, start, i + 1, k);
        }
    }
}

/// Cutting `a + b` at line breaks, where `a` ends with one: the pieces of `a` but its final
/// empty one, then the pieces of `b`.
proof fn lemma_split_lines_concat(a: Seq<char>, b: Seq<char>, start: int, i: int)
    requires
        a.len() >= 1,
        a.last() == '\n',
        0 <= start <= i <= a.len() - 1,
    ensures
        split_from(a + b, seq!['\n'], start, i) == split_from(a, seq!['\n'], start, i).drop_last()
            + split_on(b, seq!['\n']),
        split_from(a, seq!['\n'], start, i).len() >= 2,
        split_from(a, seq!['\n'], start, i).last().len() == 0,
    decreases a.len() - i,
{
    let s = a + b;
    let nl = seq!['\n'];
    assert(s.subrange(i, i + 1) =~= a.subrange(i, i + 1));
    if i == a.len() - 1 {
        assert(a.subrange(i, i + 1) =~= nl);
    }
    if occurs_at(a, nl, i) {
        assert(s.subrange(start, i) =~= a.subrange(start, i));
        if i == a.len() - 1 {
            lemma_split_from_skip(s, nl, a.len() as int, a.len() as int, a.len() as int);
            assert(s.skip(a.len() as int) =~= b);
            assert(a.subrange(a.len() as int, a.len() as int) =~= Seq::<char>::empty());
            let pa = split_from(a, nl, start, i);
            assert(pa =~= seq![a.subrange(start, i), Seq::<char>::empty()]);
            assert(pa.drop_last() =~= seq![a.subrange(start, i)]);
        } else {
            lemma_split_lines_concat(a, b, i + 1, i + 1);
            let rest = split_from(a, nl, i + 1, i + 1);
            assert((seq![a.subrange(start, i)] + rest).drop_last() =~= seq![a.subrange(start, i)]
                + rest.drop_last());
        }
    } else {
        lemma_split_lines_concat(a, b, start, i + 1);
    }
}

/// A line without a break, followed by one, cuts into that line and an empty tail.
proof fn lemma_split_one_line(l: Seq<char>, i: int)
    requires
        0 <= i <= l.len(),
        forall|k: int| 0 <= k < l.len() ==> l[k] != '\n',
    ensures
        split_from(l + seq!['\n'], seq!['\n'], 0, i) == seq![l, Seq::<char>::empty()],
    decreases l.len() - i,
{
    let s = l + seq!['\n'];
    let nl = seq!['\n'];
    if i == l.len() {
        assert(s.subrange(i, i + 1) =~= nl);
        assert(s.subrange(0, i) =~= l);
        assert(s.subrange(i + 1, s.len() as int) =~= Seq::<char>::empty());
        assert(split_from(s, nl, i + 1, i + 1) == seq![Seq::<char>::empty()]);
        assert(split_from(s, nl, 0, i) =~= seq![l] + seq![Seq::<char>::empty()]);
    } else {
        assert(s.subrange(i, i + 1) =~= seq![l[i]]);
        assert(s.subrange(i, i + 1)[0] == l[i]);
        lemma_split_one_line(l, i + 1);
    }
}

/// The lines of a text that ends with a line break, followed by more text: the lines of each.
pub proof fn lemma_text_lines_concat(a: Seq<char>, b: Seq<char>)
    requires
        a.len() >= 1,
        a.last() == '\n',
    ensures
        text_lines(a + b) == text_lines(a) + text_lines(b),
{
    let nl = seq!['\n'];
    lemma_split_lines_concat(a, b, 0, 0);
    lemma_split_from_nonempty(b, nl, 0, 0);
    let pa = split_on(a, nl);
    let pb = split_on(b, nl);
    let ps = split_on(a + b, nl);
    assert(ps =~= pa.drop_last() + pb);
    assert(ps.last() == pb.last());
    let ia = Seq::new((pa.len() - 1) as nat, |i: int| strip_cr(pa[i]));
    let ib = Seq::new((pb.len() - 1) as nat, |i: int| strip_cr(pb[i]));
    let is = Seq::new((ps.len() - 1) as nat, |i: int| strip_cr(ps[i]));
    assert(text_lines(a) == ia);
    assert(is =~= ia + ib);
    if pb.last().len() == 0 {
        assert(text_lines(a + b) =~= text_lines(a) + text_lines(b));
    } else {
        assert(is.push(ps.last()) =~= ia + ib.push(pb.last()));
    }
}

/// A first line without a break or a final carriage return comes back as the first line.
pub proof fn lemma_text_lines_first(l: Seq<char>, rest: Seq<char>)
    requires
        forall|k: int| 0 <= k < l.len() ==> l[k] != '\n',
        l.len() == 0 || l.last() != '\r',
    ensures
        text_lines(l + seq!['\n'] + rest) == seq![l] + text_lines(rest),
{
    let a = l + seq!['\n'];
    lemma_split_one_line(l, 0);
    assert(split_on(a, seq!['\n']) == seq![l, Seq::<char>::empty()]);
    assert(text_lines(a) =~= seq![strip_cr(l)]);
    assert(strip_cr(l) == l);
    lemma_text_lines_concat(a, rest);
}

/// Past the end of the first list of lines, the search goes on in the second.
proof fn lemma_stamped_rest_shift(l1: Seq<Seq<char>>, l2: Seq<Seq<char>>, j: int)
    requires
        0 <= j,
    ensures
        stamped_rest(l1 + l2, l1.len() + j) == stamped_rest(l2, j),
    decreases l2.len() - j,
{
    if j < l2.len() {
        assert((l1 + l2)[l1.len() + j] == l2[j]);
        lemma_stamped_rest_shift(l1, l2, j + 1);
    }
}

/// When no line of `l1` from `i` on carries the stamp, the search through `l1 + l2` finds what
/// the search through `l2` finds.
pub proof fn lemma_stamped_rest_concat(l1: Seq<Seq<char>>, l2: Seq<Seq<char>>, i: int)
    requires
        0 <= i <= l1.len(),
        stamped_rest(l1, i) is None,
    ensures
        stamped_rest(l1 + l2, i) == stamped_rest(l2, 0),
    decreases l1.len() - i,
{
    if i == l1.len() {
        lemma_stamped_rest_shift(l1, l2, 0);
    } else {
        assert((l1 + l2)[i] == l1[i]);
        lemma_stamped_rest_concat(l1, l2, i + 1);
    }
}

/// A run of non-space characters from `i` that stops at a space at `j` ends the word there.
pub proof fn lemma_word_end(s: Seq<char>, i: int, j: int)
    requires
        0 <= i <= j < s.len(),
        is_space(s[j]),
        forall|k: int| i <= k < j ==> !is_space(#[trigger] s[k]),
    ensures
        word_end(s, i) == j,
    decreases j - i,
{
    if i < j {
        lemma_word_end(s, i + 1, j);
    }
}

/// No line break among the characters `i..j` of `s`, checked one position at a time.
pub open spec fn no_break(s: Seq<char>, i: int, j: int) -> bool
    decreases j - i,
{
    i >= j || (s[i] != '\n' && no_break(s, i + 1, j))
}

/// `no_break` says what it means for every position in the range.
pub proof fn lemma_no_break(s: Seq<char>, i: int, j: int)
    requires
        no_break(s, i, j),
    ensures
        forall|k: int| i <= k < j ==> s[k] != '\n',
    decreases j - i,
{
    if i < j {
        lemma_no_break(s, i + 1, j);
    }
}

/// The home directory from the environment's value, or the error when it is unset or empty.
/// `windows` names the variable as that platform does (`USERPROFILE`, else `HOME`).
pub open spec fn spec_home_dir(home: Option<Seq<char>>, windows: bool) -> core::result::Result<Seq<char>, Fault> {
    match home {
        Some(h) if h.len() > 0 => Ok(h),
        _ => Err(Fault::Io(
            if windows {
                "cannot find your home directory: USERPROFILE is not set"@
            } else {
                "cannot find your home directory: HOME is not set"@
            },
        )),
    }
}

/// The home directory the skill is installed under, refusing an unset or empty variable.
pub fn home_dir(home: Option<String>, windows: bool) -> (res: Result<String>)
    ensures
        view_result(res) == spec_home_dir(opt_view(home), windows),
{
    match home {
        Some(h) => if h.unicode_len() > 0 {
            Ok(h)
        } else {
            Err(XshapeError::Io(home_message(windows)))
        },
        None => Err(XshapeError::Io(home_message(windows))),
    }
}

fn home_message(windows: bool) -> (res: String)
    ensures
        res@ == (if windows {
            "cannot find your home directory: USERPROFILE is not set"@
        } else {
            "cannot find your home directory: HOME is not set"@
        }),
{
    if windows {
        String::from_str("cannot find your home directory: USERPROFILE is not set")
    } else {
        String::from_str("cannot find your home directory: HOME is not set")
    }
}

/// The lines an install reports, each prefixed with the command's name.
pub open spec fn spec_install_report(me: Seq<char>, path: Seq<char>, version: Seq<char>, outcome: OutcomeView) -> Seq<Seq<char>> {
    match outcome {
        OutcomeView::Linked(t) => seq![
            me + ": "@ + path + " is a symlink to "@ + t,
            me + ": leaving it alone \u{2014} a link tracks its source directly, which is what you want on a machine that edits the skill."@,
        ],
        OutcomeView::AlreadyCurrent => seq![
            me + ": skill already current at "@ + path + " (xshape "@ + version + ")"@,
        ],
        OutcomeView::Installed => seq![
            me + ": installed skill to "@ + path + " (xshape "@ + version + ")"@,
        ],
        OutcomeView::Updated(from) => match from {
            Some(old) if old != version => seq![
                me + ": updated skill at "@ + path + " ("@ + old + " \u{2192} "@ + version + ")"@,
            ],
            _ => seq![me + ": updated skill at "@ + path + " (xshape "@ + version + ")"@],
        },
    }
}

/// The report lines of an install.
pub fn install_report(me: &str, path: &str, version: &str, outcome: &Outcome) -> (lines: Vec<String>)
    ensures
        lines.deep_view() == spec_install_report(me@, path@, version@, outcome@),
{
    let mut lines: Vec<String> = Vec::new();
    let mut first = String::from_str(me);
    match outcome {
        Outcome::Linked(t) => {
            first.append(": ");
            first.append(path);
            first.append(" is a symlink to ");
            first.append(t.as_str());
            let mut second = String::from_str(me);
            second.append(
                ": leaving it alone \u{2014} a link tracks its source directly, which is what you want on a machine that edits the skill.",
            );
            lines.push(first);
            lines.push(second);
        },
        Outcome::AlreadyCurrent => {
            first.append(": skill already current at ");
            first.append(path);
            first.append(" (xshape ");
            first.append(version);
            first.append(")");
            lines.push(first);
        },
        Outcome::Installed => {
            first.append(": installed skill to ");
            first.append(path);
            first.append(" (xshape ");
            first.append(version);
            first.append(")");
            lines.push(first);
        },
        Outcome::Updated(from) => {
            first.append(": updated skill at ");
            first.append(path);
            let changed = match from {
                Some(old) => !same_text(old.as_str(), version),
                None => false,
            };
            match from {
                Some(old) if changed => {
                    first.append(" (");
                    first.append(old.as_str());
                    first.append(" \u{2192} ");
                    first.append(version);
                    first.append(")");
                },
                _ => {
                    first.append(" (xshape ");
                    first.append(version);
                    first.append(")");
                },
            }
            lines.push(first);
        },
    }
    assert(lines.deep_view() =~= spec_install_report(me@, path@, version@, outcome@));
    lines
}

/// Whether two texts are the same, character for character.
fn same_text(a: &str, b: &str) -> (r: bool)
    ensures
        r == (a@ == b@),
{
    let x = chars_of(a);
    let y = chars_of(b);
    if x.len() != y.len() {
        return false;
    }
    let n = x.len();
    let mut i: usize = 0;
    while i < n
        invariant
            i <= n,
            n == x@.len(),
            n == y@.len(),
            x@ == a@,
            y@ == b@,
            forall|k: int| 0 <= k < i ==> x@[k] == y@[k],
        decreases n - i,
    {
        if x[i] != y[i] {
            return false;
        }
        i = i + 1;
    }
    assert(x@ =~= y@);
    true
}

/// What an uninstall removes.
#[derive(Debug)]
pub enum Removal {
    /// The symbolic link itself, not what it points at.
    Link,
    /// The skill's directory and everything in it.
    Dir,
    /// Nothing: no skill is installed.
    Nothing,
}

/// Decide what an uninstall removes. Unlike an install, it does remove a symbolic link: left
/// behind, the link would dangle once its target goes away.
pub fn removal(is_link: bool, exists: bool) -> (r: Removal)
    ensures
        is_link ==> r is Link,
        !is_link && exists ==> r is Dir,
        !is_link && !exists ==> r is Nothing,
{
    if is_link {
        Removal::Link
    } else if exists {
        Removal::Dir
    } else {
        Removal::Nothing
    }
}

/// The line an uninstall reports.
pub open spec fn spec_uninstall_report(me: Seq<char>, path: Seq<char>, removal: Removal, link_target: Option<Seq<char>>) -> Seq<char> {
    match removal {
        Removal::Nothing => me + ": no skill installed at "@ + path,
        _ => match link_target {
            Some(t) => me + ": removed the symlink at "@ + path + " (it pointed at "@ + t + ")"@,
            None => me + ": removed the skill at "@ + path,
        },
    }
}

/// The line an uninstall reports: nothing to remove, or what was removed (naming the link's
/// target when a link was removed).
pub fn uninstall_report(me: &str, path: &str, removal: &Removal, link_target: Option<String>) -> (line: String)
    ensures
        line@ == spec_uninstall_report(me@, path@, *removal, opt_view(link_target)),
{
    let mut line = String::from_str(me);
    match removal {
        Removal::Nothing => {
            line.append(": no skill installed at ");
            line.append(path);
        },
        _ => match &link_target {
            Some(t) => {
                line.append(": removed the symlink at ");
                line.append(path);
                line.append(" (it pointed at ");
                line.append(t.as_str());
                line.append(")");
            },
            None => {
                line.append(": removed the skill at ");
                line.append(path);
            },
        },
    }
    line
}

/// The path separator `Path::join` writes: `\` on Windows, `/` elsewhere.
pub open spec fn separator(windows: bool) -> char {
    if windows {
        '\\'
    } else {
        '/'
    }
}

/// Whether `Path::join` needs a separator after `p`: it does unless `p` is empty or already
/// ends with one (`/`, or on Windows also `\`).
pub open spec fn needs_separator(p: Seq<char>, windows: bool) -> bool {
    p.len() > 0 && !(p.last() == '/' || (windows && p.last() == '\\'))
}

/// `p` joined with a relative component `c`, as `Path::join` does it.
pub open spec fn join_path(p: Seq<char>, c: Seq<char>, windows: bool) -> Seq<char> {
    if needs_separator(p, windows) {
        p + seq![separator(windows)] + c
    } else {
        p + c
    }
}

/// Where the skill is installed: `<home>/<config>/skills/xshape`, where `config` is the
/// name of the agent's configuration directory under the home directory.
pub open spec fn spec_skill_dir(home: Seq<char>, config: Seq<char>, windows: bool) -> Seq<char> {
    join_path(join_path(join_path(home, config, windows), "skills"@, windows), "xshape"@, windows)
}

/// Append a relative component to a path the way `Path::join` does.
fn push_component(p: &mut String, c: &str, windows: bool)
    ensures
        final(p)@ == join_path(old(p)@, c@, windows),
{
    let cs = chars_of(p.as_str());
    let n = cs.len();
    if n > 0 && !(cs[n - 1] == '/' || (windows && cs[n - 1] == '\\')) {
        if windows {
            p.append("\\");
            proof {
                reveal_strlit("\\");
            }
        } else {
            p.append("/");
            proof {
                reveal_strlit("/");
            }
        }
    }
    p.append(c);
}

/// The skill's directory: the home directory joined with the agent's configuration directory
/// `config`, then `skills`, then `xshape`, with the platform's separator.
pub fn skill_dir(home: &str, config: &str, windows: bool) -> (res: String)
    ensures
        res@ == spec_skill_dir(home@, config@, windows),
{
    let mut p = String::from_str(home);
    push_component(&mut p, config, windows);
    push_component(&mut p, "skills", windows);
    proof {
        reveal_strlit("skills");
    }
    assert("skills"@.len() > 0 && "skills"@.last() == 's');
    push_component(&mut p, "xshape", windows);
    p
}

} // verus!
