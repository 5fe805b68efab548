//! Character-level string helpers with their specifications.
use vstd::prelude::*;
use vstd::string::StringExecFns;

verus! {

/// The views of a sequence of strings.
pub open spec fn views(v: Seq<String>) -> Seq<Seq<char>> {
    v.map_values(|x: String| x@)
}

/// The pieces of `s` between occurrences of `sep`, as `str::split` with a
/// character pattern yields them (an empty string gives one empty piece).
pub open spec fn split_on(s: Seq<char>, sep: char) -> Seq<Seq<char>>
    decreases s.len(),
{
    if s.len() == 0 {
        seq![Seq::<char>::empty()]
    } else {
        let r = split_on(s.drop_last(), sep);
        if s.last() == sep {
            r.push(Seq::<char>::empty())
        } else {
            r.update(r.len() - 1, r.last().push(s.last()))
        }
    }
}

/// Splitting always gives at least one piece.
pub proof fn lemma_split_on_nonempty(s: Seq<char>, sep: char)
    ensures
        split_on(s, sep).len() >= 1,
    decreases s.len(),
{
    if s.len() > 0 {
        lemma_split_on_nonempty(s.drop_last(), sep);
    }
}

/// The parts joined with `sep` between each two of them.
pub open spec fn join(parts: Seq<Seq<char>>, sep: Seq<char>) -> Seq<char>
    decreases parts.len(),
{
    if parts.len() == 0 {
        Seq::<char>::empty()
    } else if parts.len() == 1 {
        parts[0]
    } else {
        join(parts.drop_last(), sep) + sep + parts.last()
    }
}

/// Every non-overlapping occurrence of the pair `a b`, from left to right,
/// replaced by `c`.
pub open spec fn replace_pair(s: Seq<char>, a: char, b: char, c: char) -> Seq<char>
    decreases s.len(),
{
    if s.len() == 0 {
        s
    } else if s.len() >= 2 && s[0] == a && s[1] == b {
        seq![c] + replace_pair(s.skip(2), a, b, c)
    } else {
        seq![s[0]] + replace_pair(s.skip(1), a, b, c)
    }
}

/// `s` with every leading occurrence of the non-empty `p` removed.
pub open spec fn trim_start_all(s: Seq<char>, p: Seq<char>) -> Seq<char>
    decreases s.len(),
{
    if p.len() > 0 && s.len() >= p.len() && s.take(p.len() as int) == p {
        trim_start_all(s.skip(p.len() as int), p)
    } else {
        s
    }
}

/// `s` with every trailing `c` removed.
pub open spec fn trim_end_char(s: Seq<char>, c: char) -> Seq<char>
    decreases s.len(),
{
    if s.len() > 0 && s.last() == c {
        trim_end_char(s.drop_last(), c)
    } else {
        s
    }
}

/// `s` starts with `p`.
pub open spec fn has_prefix(s: Seq<char>, p: Seq<char>) -> bool {
    p.len() <= s.len() && s.take(p.len() as int) == p
}

/// `s` without a trailing `c`, if it has one.
pub open spec fn strip_last(s: Seq<char>, c: char) -> Seq<char> {
    if s.len() > 0 && s.last() == c {
        s.drop_last()
    } else {
        s
    }
}

/// The lines of `s`, as `str::lines` yields them: the pieces between `\n`
/// characters, each without a `\r` that ends it, and no final empty piece
/// after a `\n` that ends the text.
pub open spec fn lines_of(s: Seq<char>) -> Seq<Seq<char>> {
    let pieces = split_on(s, '\n');
    let ended = pieces.drop_last().map_values(|p: Seq<char>| strip_last(p, '\r'));
    if pieces.last().len() == 0 {
        ended
    } else {
        ended.push(pieces.last())
    }
}

/// Appends a character to a string.
///
/// Calls `String::push`, which appends the character to the end of the
/// string; the contract says exactly that.
#[verifier::external_body]
pub(crate) fn push_char(s: &mut String, c: char)
    ensures
        final(s)@ == old(s)@.push(c),
{
    s.push(c);
}

/// The characters of a string, in order.
pub fn chars_of(s: &str) -> (r: Vec<char>)
    ensures
        r@ == s@,
{
    let mut v: Vec<char> = Vec::new();
    for c in it: s.chars()
        invariant
            v@ == it.seq().take(it.index() as int),
    {
        v.push(c);
    }
    v
}

/// The string made of the characters `cs[lo..hi]`.
pub fn string_from_range(cs: &Vec<char>, lo: usize, hi: usize) -> (r: String)
    requires
        lo <= hi <= cs.len(),
    ensures
        r@ == cs@.subrange(lo as int, hi as int),
{
    let mut s = String::new();
    let mut i = lo;
    while i < hi
        invariant
            lo <= i <= hi <= cs.len(),
            s@ == cs@.subrange(lo as int, i as int),
        decreases hi - i,
    {
        push_char(&mut s, cs[i]);
        assert(cs@.subrange(lo as int, i + 1) == cs@.subrange(lo as int, i as int).push(cs@[i as int]));
        i = i + 1;
    }
    s
}

/// The string made of the given characters.
pub fn string_from_chars(cs: &Vec<char>) -> (r: String)
    ensures
        r@ == cs@,
{
    let r = string_from_range(cs, 0, cs.len());
    assert(cs@.subrange(0, cs@.len() as int) == cs@);
    r
}

/// A copy of a string slice as a `String`.
pub fn to_string(s: &str) -> (r: String)
    ensures
        r@ == s@,
{
    s.to_owned()
}

/// Appends `t` to `s`.
pub fn push_str(s: &mut String, t: &str)
    ensures
        final(s)@ == old(s)@ + t@,
{
    s.append(t);
}

/// The concatenation of two strings.
pub fn concat2(a: &str, b: &str) -> (r: String)
    ensures
        r@ == a@ + b@,
{
    let mut s = to_string(a);
    push_str(&mut s, b);
    s
}

/// The concatenation of three strings.
pub fn concat3(a: &str, b: &str, c: &str) -> (r: String)
    ensures
        r@ == a@ + b@ + c@,
{
    let mut s = to_string(a);
    push_str(&mut s, b);
    push_str(&mut s, c);
    s
}

/// Whether two strings hold the same characters.
pub fn text_eq(a: &str, b: &str) -> (r: bool)
    ensures
        r == (a@ == b@),
{
    let x = chars_of(a);
    let y = chars_of(b);
    if x.len() != y.len() {
        return false;
    }
    let mut i: usize = 0;
    while i < x.len()
        invariant
            x@ == a@,
            y@ == b@,
            x.len() == y.len(),
            i <= x.len(),
            forall|j: int| 0 <= j < i ==> x@[j] == y@[j],
        decreases x.len() - i,
    {
        if x[i] != y[i] {
            return false;
        }
        i = i + 1;
    }
    assert(x@ == y@);
    true
}

/// Whether `s` starts with `p`.
pub fn starts_with(s: &str, p: &str) -> (r: bool)
    ensures
        r == has_prefix(s@, p@),
{
    let x = chars_of(s);
    let y = chars_of(p);
    if y.len() > x.len() {
        return false;
    }
    let mut i: usize = 0;
    while i < y.len()
        invariant
            x@ == s@,
            y@ == p@,
            y.len() <= x.len(),
            i <= y.len(),
            forall|j: int| 0 <= j < i ==> x@[j] == y@[j],
        decreases y.len() - i,
    {
        if x[i] != y[i] {
            assert(x@.take(y@.len() as int)[i as int] != y@[i as int]);
            return false;
        }
        i = i + 1;
    }
    assert(x@.take(y@.len() as int) == y@);
    true
}

/// The pieces of `s` between occurrences of `sep`.
pub fn split_char(s: &str, sep: char) -> (r: Vec<String>)
    ensures
        views(r@) == split_on(s@, sep),
{
    let cs = chars_of(s);
    let mut pieces: Vec<String> = Vec::new();
    let mut start: usize = 0;
    let mut i: usize = 0;
    assert(views(pieces@) == Seq::<Seq<char>>::empty());
    assert(cs@.subrange(0, 0) == Seq::<char>::empty());
    assert(views(pieces@).push(cs@.subrange(0, 0)) == seq![Seq::<char>::empty()]);
    assert(cs@.take(0) == Seq::<char>::empty());
    while i < cs.len()
        invariant
            cs@ == s@,
            start <= i <= cs.len(),
            views(pieces@).push(cs@.subrange(start as int, i as int)) == split_on(
                cs@.take(i as int),
                sep,
            ),
        decreases cs.len() - i,
    {
        let ghost before = views(pieces@);
        assert(cs@.take(i + 1).drop_last() == cs@.take(i as int));
        proof {
            lemma_split_on_nonempty(cs@.take(i as int), sep);
        }
        if cs[i] == sep {
            let piece = string_from_range(&cs, start, i);
            pieces.push(piece);
            start = i + 1;
            assert(views(pieces@) == before.push(piece@));
            assert(cs@.subrange(start as int, i + 1) == Seq::<char>::empty());
        } else {
            assert(cs@.subrange(start as int, i + 1) == cs@.subrange(start as int, i as int).push(
                cs@[i as int],
            ));
        }
        i = i + 1;
    }
    let last = string_from_range(&cs, start, cs.len());
    let ghost before = views(pieces@);
    pieces.push(last);
    assert(views(pieces@) == before.push(last@));
    assert(cs@.take(cs@.len() as int) == cs@);
    pieces
}

/// The strings joined with `sep` between each two of them.
pub fn join_strings(parts: &Vec<String>, sep: &str) -> (r: String)
    ensures
        r@ == join(views(parts@), sep@),
{
    let mut res = String::new();
    let ghost all = views(parts@);
    let mut i: usize = 0;
    while i < parts.len()
        invariant
            all == views(parts@),
            i <= parts.len(),
            res@ == join(all.take(i as int), sep@),
        decreases parts.len() - i,
    {
        assert(all.take(i + 1).drop_last() == all.take(i as int));
        if i != 0 {
            push_str(&mut res, sep);
        }
        push_str(&mut res, parts[i].as_str());
        i = i + 1;
    }
    assert(all.take(parts.len() as int) == all);
    res
}

/// `s` with every non-overlapping `a b`, from left to right, replaced by `c`.
pub fn replace_pair_of(s: &str, a: char, b: char, c: char) -> (r: String)
    ensures
        r@ == replace_pair(s@, a, b, c),
{
    let cs = chars_of(s);
    let mut out: Vec<char> = Vec::new();
    let mut i: usize = 0;
    assert(cs@.skip(0) == cs@);
    while i < cs.len()
        invariant
            cs@ == s@,
            i <= cs.len(),
            out@ + replace_pair(cs@.skip(i as int), a, b, c) == replace_pair(cs@, a, b, c),
        decreases cs.len() - i,
    {
        let ghost rest = cs@.skip(i as int);
        if i + 1 < cs.len() && cs[i] == a && cs[i + 1] == b {
            assert(rest.skip(2) == cs@.skip(i + 2));
            out.push(c);
            assert(out@ + replace_pair(cs@.skip(i + 2), a, b, c) == replace_pair(cs@, a, b, c));
            i = i + 2;
        } else {
            assert(rest.skip(1) == cs@.skip(i + 1));
            out.push(cs[i]);
            assert(out@ + replace_pair(cs@.skip(i + 1), a, b, c) == replace_pair(cs@, a, b, c));
            i = i + 1;
        }
    }
    assert(cs@.skip(cs@.len() as int) == Seq::<char>::empty());
    string_from_chars(&out)
}

/// `s` with every leading occurrence of the non-empty `p` removed.
pub fn trim_start_matches(s: &str, p: &str) -> (r: String)
    ensures
        r@ == trim_start_all(s@, p@),
{
    let cs = chars_of(s);
    let ps = chars_of(p);
    let mut i: usize = 0;
    assert(cs@.skip(0) == cs@);
    while ps.len() > 0 && ps.len() <= cs.len() - i && matches_at(&cs, i, &ps)
        invariant
            cs@ == s@,
            ps@ == p@,
            i <= cs.len(),
            trim_start_all(cs@.skip(i as int), ps@) == trim_start_all(cs@, ps@),
        decreases cs.len() - i,
    {
        assert(cs@.skip(i as int).skip(ps@.len() as int) == cs@.skip(i + ps@.len()));
        i = i + ps.len();
    }
    assert(cs@.skip(i as int) == cs@.subrange(i as int, cs@.len() as int));
    string_from_range(&cs, i, cs.len())
}

/// Whether `ps` occurs in `cs` at offset `i`.
fn matches_at(cs: &Vec<char>, i: usize, ps: &Vec<char>) -> (r: bool)
    requires
        i + ps.len() <= cs.len(),
    ensures
        r == (cs@.skip(i as int).take(ps@.len() as int) == ps@),
{
    let mut k: usize = 0;
    while k < ps.len()
        invariant
            i + ps.len() <= cs.len(),
            k <= ps.len(),
            forall|j: int| 0 <= j < k ==> cs@[i + j] == ps@[j],
        decreases ps.len() - k,
    {
        if cs[i + k] != ps[k] {
            assert(cs@.skip(i as int).take(ps@.len() as int)[k as int] != ps@[k as int]);
            return false;
        }
        k = k + 1;
    }
    assert(cs@.skip(i as int).take(ps@.len() as int) == ps@);
    true
}

/// `s` with every trailing `c` removed.
pub fn trim_end_matches(s: &str, c: char) -> (r: String)
    ensures
        r@ == trim_end_char(s@, c),
{
    let cs = chars_of(s);
    let mut n: usize = cs.len();
    assert(cs@.take(n as int) == cs@);
    while n > 0 && cs[n - 1] == c
        invariant
            cs@ == s@,
            n <= cs.len(),
            trim_end_char(cs@.take(n as int), c) == trim_end_char(cs@, c),
        decreases n,
    {
        assert(cs@.take(n as int).drop_last() == cs@.take(n - 1));
        n = n - 1;
    }
    assert(cs@.take(n as int) == cs@.subrange(0, n as int));
    string_from_range(&cs, 0, n)
}

/// The lines of `s`, as `str::lines` yields them.
pub fn lines(s: &str) -> (r: Vec<String>)
    ensures
        views(r@) == lines_of(s@),
{
    let pieces = split_char(s, '\n');
    proof {
        lemma_split_on_nonempty(s@, '\n');
    }
    let n = pieces.len();
    let mut out: Vec<String> = Vec::new();
    let mut i: usize = 0;
    let ghost ps = split_on(s@, '\n');
    while i + 1 < n
        invariant
            views(pieces@) == ps,
            ps == split_on(s@, '\n'),
            n == pieces.len(),
            n >= 1,
            i + 1 <= n,
            views(out@) == ps.take(i as int).map_values(|p: Seq<char>| strip_last(p, '\r')),
        decreases n - i,
    {
        let cs = chars_of(pieces[i].as_str());
        let line = if cs.len() > 0 && cs[cs.len() - 1] == '\r' {
            string_from_range(&cs, 0, cs.len() - 1)
        } else {
            string_from_range(&cs, 0, cs.len())
        };
        assert(cs@.subrange(0, cs@.len() as int) == cs@);
        assert(views(pieces@)[i as int] == pieces@[i as int]@);
        let ghost before = views(out@);
        out.push(line);
        assert(views(out@) == before.push(line@));
        assert(ps.take(i + 1) == ps.take(i as int).push(ps[i as int]));
        i = i + 1;
    }
    assert(ps.take(i as int) == ps.drop_last());
    let last_len = chars_of(pieces[n - 1].as_str()).len();
    assert(views(pieces@)[n - 1] == pieces@[n - 1]@);
    if last_len > 0 {
        let ghost before = views(out@);
        out.push(to_string(pieces[n - 1].as_str()));
        assert(views(out@) == before.push(ps.last()));
    }
    out
}

/// An ASCII decimal digit.
pub open spec fn is_digit(c: char) -> bool {
    '0' <= c <= '9'
}

/// The value of a run of decimal digits.
pub open spec fn digits_value(s: Seq<char>) -> int
    decreases s.len(),
{
    if s.len() == 0 {
        0
    } else {
        digits_value(s.drop_last()) * 10 + (s.last() as int - 48)
    }
}

/// The digits of an unsigned number, after an optional leading `+`.
pub open spec fn unsigned_digits(s: Seq<char>) -> Seq<char> {
    if s.len() > 0 && s[0] == '+' {
        s.drop_first()
    } else {
        s
    }
}

/// The value of `s` read as a `usize` the way `str::parse` reads it: an
/// optional `+`, then one or more decimal digits and nothing else, with a
/// value that fits.
pub open spec fn parse_usize(s: Seq<char>) -> Option<int> {
    let d = unsigned_digits(s);
    if d.len() > 0 && (forall|i: int| 0 <= i < d.len() ==> is_digit(#[trigger] d[i]))
        && digits_value(d) <= usize::MAX {
        Some(digits_value(d))
    } else {
        None
    }
}

proof fn lemma_digits_value_nonneg(d: Seq<char>, k: int)
    requires
        0 <= k <= d.len(),
        forall|j: int| 0 <= j < d.len() ==> is_digit(#[trigger] d[j]),
    ensures
        0 <= digits_value(d.take(k)),
    decreases k,
{
    if k > 0 {
        lemma_digits_value_nonneg(d, k - 1);
        assert(d.take(k).drop_last() == d.take(k - 1));
    }
}

proof fn lemma_digits_value_grows(d: Seq<char>, i: int, k: int)
    requires
        0 <= i <= k <= d.len(),
        forall|j: int| 0 <= j < d.len() ==> is_digit(#[trigger] d[j]),
    ensures
        digits_value(d.take(i)) <= digits_value(d.take(k)),
    decreases k - i,
{
    if i < k {
        lemma_digits_value_grows(d, i, k - 1);
        lemma_digits_value_nonneg(d, k - 1);
        assert(d.take(k).drop_last() == d.take(k - 1));
    }
}

/// Read a string as a `usize` the way `str::parse::<usize>` does.
pub fn parse_index(s: &str) -> (r: Option<usize>)
    ensures
        match r {
            Some(n) => parse_usize(s@) == Some(n as int),
            None => parse_usize(s@) is None,
        },
{
    let cs = chars_of(s);
    let start: usize = if cs.len() > 0 && cs[0] == '+' {
        1
    } else {
        0
    };
    let ghost d = unsigned_digits(cs@);
    assert(d == cs@.skip(start as int));
    if start >= cs.len() {
        return None;
    }
    let mut v: usize = 0;
    let mut i: usize = start;
    assert(d.take(0) == Seq::<char>::empty());
    while i < cs.len()
        invariant
            cs@ == s@,
            d == cs@.skip(start as int),
            d == unsigned_digits(cs@),
            start <= i <= cs.len(),
            start < cs.len(),
            v as int == digits_value(d.take(i - start)),
            forall|j: int| 0 <= j < i - start ==> is_digit(#[trigger] d[j]),
        decreases cs.len() - i,
    {
        let c = cs[i];
        if c < '0' || c > '9' {
            assert(!is_digit(d[i - start]));
            return None;
        }
        let digit = (c as u32 - 48) as usize;
        assert(d.take(i - start + 1).drop_last() == d.take(i - start));
        let next = v as u128 * 10 + digit as u128;
        assert(next == digits_value(d.take(i - start + 1)));
        if next > usize::MAX as u128 {
            proof {
                if forall|j: int| 0 <= j < d.len() ==> is_digit(#[trigger] d[j]) {
                    lemma_digits_value_grows(d, i - start + 1, d.len() as int);
                    assert(d.take(d.len() as int) == d);
                }
            }
            return None;
        }
        v = next as usize;
        i = i + 1;
    }
    assert(d.take(d.len() as int) == d);
    Some(v)
}

} // verus!
