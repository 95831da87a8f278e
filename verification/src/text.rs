//! Text on the character level: splitting a cell on a literal separator, joining pieces back,
//! and the few renderings (column letters, decimal numbers, quoted text) that messages use.
use vstd::prelude::*;
use vstd::string::*;

verus! {

/// Column letters for a 0-based index, bijective base 26: 0 is `A`, 25 is `Z`, 26 is `AA`.
pub open spec fn col_letters(c: nat) -> Seq<char>
    decreases c,
{
    if c < 26 {
        seq![(65 + c) as char]
    } else {
        col_letters((c / 26 - 1) as nat) + seq![(65 + c % 26) as char]
    }
}

/// A natural number written in decimal, most significant digit first.
pub open spec fn decimal(n: nat) -> Seq<char>
    decreases n,
{
    if n < 10 {
        seq![(48 + n) as char]
    } else {
        decimal(n / 10) + seq![(48 + n % 10) as char]
    }
}

/// What `{:?}` makes of a string: the text quoted, with std's escapes.
pub uninterp spec fn debug_text(s: Seq<char>) -> Seq<char>;

/// What `{:?}` makes of a character: the character in single quotes, with std's escapes.
pub uninterp spec fn debug_char(c: char) -> Seq<char>;

/// `xaddr::col_to_letter`: the bijective base-26 letters of a column index.
#[verifier::external_body]
pub(crate) fn col_to_letter(c: usize) -> (res: String)
    ensures
        res@ == col_letters(c as nat),
{
    xaddr::col_to_letter(c)
}

/// std's `Display` for `usize`: the number in decimal.
#[verifier::external_body]
pub(crate) fn usize_text(n: usize) -> (res: String)
    ensures
        res@ == decimal(n as nat),
{
    n.to_string()
}

/// std's `Debug` for `str`.
#[verifier::external_body]
pub(crate) fn debug_quoted(s: &str) -> (res: String)
    ensures
        res@ == debug_text(s@),
{
    format!("{s:?}")
}

/// std's `Debug` for `char`.
#[verifier::external_body]
pub(crate) fn debug_quoted_char(c: char) -> (res: String)
    ensures
        res@ == debug_char(c),
{
    format!("{c:?}")
}

/// The characters of a string.
pub fn chars_of(s: &str) -> (res: Vec<char>)
    ensures
        res@ == s@,
{
    let mut out: Vec<char> = Vec::new();
    for c in it: s.chars()
        invariant
            out@ == it.seq().take(it.index() as int),
            it.seq() == s@,
    {
        out.push(c);
    }
    out
}

/// A copy of the characters `from..to` of a string.
pub fn substring(s: &str, from: usize, to: usize) -> (res: String)
    requires
        from <= to <= s@.len(),
    ensures
        res@ == s@.subrange(from as int, to as int),
{
    String::from_str(s.substring_char(from, to))
}

/// `sep` occurs in `s` starting at position `i`.
pub open spec fn occurs_at(s: Seq<char>, sep: Seq<char>, i: int) -> bool {
    &&& 0 <= i
    &&& i + sep.len() <= s.len()
    &&& s.subrange(i, i + sep.len()) == sep
}

/// The pieces of `s` from `start` on, scanning for `sep` from position `i`: the leftmost
/// match ends the current piece and the scan resumes after it, as `str::split` does.
pub open spec fn split_from(s: Seq<char>, sep: Seq<char>, start: int, i: int) -> Seq<Seq<char>>
    decreases s.len() - i,
{
    if sep.len() == 0 || i + sep.len() > s.len() || i < 0 {
        seq![s.subrange(start, s.len() as int)]
    } else if occurs_at(s, sep, i) {
        seq![s.subrange(start, i)] + split_from(s, sep, i + sep.len(), i + sep.len())
    } else {
        split_from(s, sep, start, i + 1)
    }
}

/// `s` cut at every non-overlapping occurrence of the literal `sep`, left to right.
pub open spec fn split_on(s: Seq<char>, sep: Seq<char>) -> Seq<Seq<char>> {
    split_from(s, sep, 0, 0)
}

/// The pieces joined with `sep` between each neighbouring pair.
pub open spec fn join(ps: Seq<Seq<char>>, sep: Seq<char>) -> Seq<char>
    decreases ps.len(),
{
    if ps.len() == 0 {
        seq![]
    } else if ps.len() == 1 {
        ps[0]
    } else {
        ps[0] + sep + join(ps.drop_first(), sep)
    }
}

/// Joining one more piece appends the separator and the piece.
pub proof fn lemma_join_push(ps: Seq<Seq<char>>, p: Seq<char>, sep: Seq<char>)
    requires
        ps.len() >= 1,
    ensures
        join(ps.push(p), sep) == join(ps, sep) + sep + p,
    decreases ps.len(),
{
    if ps.len() == 1 {
        assert(ps.push(p).drop_first() =~= seq![p]);
        assert(join(seq![p], sep) == p);
    } else {
        assert(ps.push(p).drop_first() =~= ps.drop_first().push(p));
        lemma_join_push(ps.drop_first(), p, sep);
        let r = join(ps.drop_first(), sep);
        assert(ps[0] + sep + (r + sep + p) =~= ps[0] + sep + r + sep + p);
    }
}

/// Splitting never yields an empty list of pieces.
pub proof fn lemma_split_from_nonempty(s: Seq<char>, sep: Seq<char>, start: int, i: int)
    ensures
        split_from(s, sep, start, i).len() >= 1,
    decreases s.len() - i,
{
    if sep.len() == 0 || i + sep.len() > s.len() || i < 0 {
    } else if occurs_at(s, sep, i) {
        lemma_split_from_nonempty(s, sep, i + sep.len(), i + sep.len());
    } else {
        lemma_split_from_nonempty(s, sep, start, i + 1);
    }
}

/// Joining the pieces of a split with the same separator gives the text back.
pub proof fn lemma_join_split_from(s: Seq<char>, sep: Seq<char>, start: int, i: int)
    requires
        0 <= start <= i <= s.len(),
        sep.len() > 0,
    ensures
        join(split_from(s, sep, start, i), sep) == s.subrange(start, s.len() as int),
    decreases s.len() - i,
{
    if i + sep.len() > s.len() {
    } else if occurs_at(s, sep, i) {
        let k = i + sep.len();
        let rest = split_from(s, sep, k, k);
        lemma_split_from_nonempty(s, sep, k, k);
        lemma_join_split_from(s, sep, k, k);
        let ps = seq![s.subrange(start, i)] + rest;
        assert(ps.drop_first() =~= rest);
        assert(s.subrange(start, i) + sep + s.subrange(k, s.len() as int) =~= s.subrange(
            start,
            s.len() as int,
        ));
    } else {
        lemma_join_split_from(s, sep, start, i + 1);
    }
}

/// Every split of `s` on a non-empty separator joins back to `s`.
pub proof fn lemma_join_split(s: Seq<char>, sep: Seq<char>)
    requires
        sep.len() > 0,
    ensures
        join(split_on(s, sep), sep) == s,
        split_on(s, sep).len() >= 1,
{
    lemma_join_split_from(s, sep, 0, 0);
    lemma_split_from_nonempty(s, sep, 0, 0);
    assert(s.subrange(0, s.len() as int) =~= s);
}

/// Whether `sep` occurs in `cs` at position `i`.
pub(crate) fn occurs_at_exec(cs: &Vec<char>, sep: &Vec<char>, i: usize) -> (res: bool)
    requires
        i + sep@.len() <= cs@.len(),
    ensures
        res == occurs_at(cs@, sep@, i as int),
{
    let k = sep.len();
    let mut j: usize = 0;
    while j < k
        invariant
            j <= k,
            k == sep@.len(),
            i + k <= cs.len(),
            cs@.subrange(i as int, i + j) == sep@.take(j as int),
        decreases k - j,
    {
        if cs[i + j] != sep[j] {
            assert(cs@.subrange(i as int, i + k)[j as int] != sep@[j as int]);
            return false;
        }
        j = j + 1;
        assert(cs@.subrange(i as int, i + j) =~= sep@.take(j as int));
    }
    assert(sep@.take(k as int) =~= sep@);
    true
}

/// The pieces of `s` cut at every occurrence of the literal, non-empty `sep`.
pub fn split_text(s: &str, sep: &str) -> (res: Vec<String>)
    requires
        sep@.len() > 0,
    ensures
        res.deep_view() == split_on(s@, sep@),
{
    let cs = chars_of(s);
    let ps = chars_of(sep);
    let n = cs.len();
    let k = ps.len();
    let mut out: Vec<String> = Vec::new();
    let mut start: usize = 0;
    let mut i: usize = 0;
    while i < n && k <= n - i
        invariant
            start <= i <= n,
            n == cs@.len(),
            k == ps@.len(),
            k > 0,
            cs@ == s@,
            ps@ == sep@,
            out.deep_view() + split_from(s@, sep@, start as int, i as int) == split_on(s@, sep@),
        decreases n - i,
    {
        if occurs_at_exec(&cs, &ps, i) {
            let piece = substring(s, start, i);
            let ghost before = out.deep_view();
            out.push(piece);
            assert(out.deep_view() =~= before.push(piece@));
            i = i + k;
            start = i;
        } else {
            i = i + 1;
        }
    }
    let last = substring(s, start, n);
    let ghost before = out.deep_view();
    out.push(last);
    assert(out.deep_view() =~= before.push(last@));
    out
}

/// The pieces joined with `sep` between each neighbouring pair.
pub fn join_text(parts: &Vec<String>, sep: &str) -> (res: String)
    ensures
        res@ == join(parts.deep_view(), sep@),
{
    let mut out = String::new();
    let n = parts.len();
    let mut i: usize = 0;
    while i < n
        invariant
            i <= n,
            n == parts@.len(),
            i == 0 ==> out@ == Seq::<char>::empty(),
            i > 0 ==> out@ == join(parts.deep_view().take(i as int), sep@),
        decreases n - i,
    {
        if i > 0 {
            proof {
                lemma_join_push(parts.deep_view().take(i as int), parts.deep_view()[i as int], sep@);
                assert(parts.deep_view().take(i as int).push(parts.deep_view()[i as int])
                    =~= parts.deep_view().take(i + 1));
            }
            out.append(sep);
        }
        out.append(parts[i].as_str());
        i = i + 1;
        proof {
            if i == 1 {
                assert(parts.deep_view().take(1) =~= seq![parts.deep_view()[0]]);
            }
        }
    }
    assert(parts.deep_view().take(n as int) =~= parts.deep_view());
    out
}

} // verus!
