//! Character-level helpers for playlist text: line splitting, prefixes,
//! substring search and decimal numbers.
use vstd::prelude::*;
use vstd::std_specs::iter::IteratorSpec;

verus! {

/// The pieces of `s` between the occurrences of `c`; there is always one more
/// piece than there are occurrences.
pub open spec fn split_on(s: Seq<char>, c: char) -> Seq<Seq<char>>
    decreases s.len(),
{
    if s.len() == 0 {
        seq![Seq::empty()]
    } else {
        let rest = split_on(s.drop_last(), c);
        if s.last() == c {
            rest.push(Seq::empty())
        } else {
            rest.update(rest.len() - 1, rest.last().push(s.last()))
        }
    }
}

pub proof fn lemma_split_on_nonempty(s: Seq<char>, c: char)
    ensures
        split_on(s, c).len() >= 1,
    decreases s.len(),
{
    if s.len() > 0 {
        lemma_split_on_nonempty(s.drop_last(), c);
    }
}

/// A line with one trailing carriage return removed.
pub open spec fn strip_cr(l: Seq<char>) -> Seq<char> {
    if l.len() > 0 && l.last() == '\r' {
        l.drop_last()
    } else {
        l
    }
}

/// The lines of a text: it is cut at each `'\n'`, a `'\r'` just before a
/// `'\n'` is dropped, and an empty piece after the last `'\n'` is no line.
pub open spec fn lines_of(s: Seq<char>) -> Seq<Seq<char>> {
    let p = split_on(s, '\n');
    let k = if p.last().len() == 0 {
        p.len() - 1
    } else {
        p.len() as int
    };
    Seq::new(k as nat, |i: int| if i < p.len() - 1 { strip_cr(p[i]) } else { p[i] })
}

/// The character sequences held by a vector of character vectors.
pub open spec fn views(v: Seq<Vec<char>>) -> Seq<Seq<char>> {
    v.map_values(|l: Vec<char>| l@)
}

proof fn lemma_split_on_append(u: Seq<char>, m: Seq<char>, c: char)
    requires
        forall|i: int| 0 <= i < m.len() ==> m[i] != c,
    ensures
        split_on(u + m, c) == split_on(u, c).drop_last().push(split_on(u, c).last() + m),
    decreases m.len(),
{
    lemma_split_on_nonempty(u, c);
    if m.len() == 0 {
        assert(u + m =~= u);
        assert(split_on(u, c).last() + m =~= split_on(u, c).last());
        assert(split_on(u, c).drop_last().push(split_on(u, c).last()) =~= split_on(u, c));
    } else {
        let init = m.drop_last();
        lemma_split_on_append(u, init, c);
        assert((u + m).drop_last() =~= u + init);
        assert((u + m).last() == m.last());
        assert(m[m.len() - 1] != c);
        let rest = split_on(u + init, c);
        assert(split_on(u + m, c) == rest.update(rest.len() - 1, rest.last().push(m.last())));
        assert((split_on(u, c).last() + init).push(m.last()) =~= split_on(u, c).last() + m);
        assert(split_on(u + m, c) =~= split_on(u, c).drop_last().push(split_on(u, c).last() + m));
    }
}

/// Adding a line to a text that ends in neither a line break nor a carriage
/// return adds that line to its lines.
pub proof fn lemma_lines_append(t: Seq<char>, m: Seq<char>)
    requires
        t.len() > 0,
        t.last() != '\n',
        t.last() != '\r',
        m.len() > 0,
        forall|i: int| 0 <= i < m.len() ==> m[i] != '\n',
    ensures
        lines_of(t + seq!['\n'] + m) == lines_of(t).push(m),
{
    let p = split_on(t, '\n');
    lemma_split_on_nonempty(t, '\n');
    lemma_split_on_nonempty(t.drop_last(), '\n');
    let q = split_on(t.drop_last(), '\n');
    assert(p == q.update(q.len() - 1, q.last().push(t.last())));
    assert(p.last() == q.last().push(t.last()));
    let tn = t + seq!['\n'];
    assert(tn.drop_last() =~= t);
    assert(split_on(tn, '\n') == p.push(Seq::empty()));
    lemma_split_on_append(tn, m, '\n');
    assert(p.push(Seq::empty()).drop_last() =~= p);
    assert(Seq::<char>::empty() + m =~= m);
    let p2 = split_on(tn + m, '\n');
    assert(p2 == p.push(m));
    assert(t + seq!['\n'] + m == tn + m);
    assert(strip_cr(p.last()) == p.last());
    assert(lines_of(t + seq!['\n'] + m) =~= lines_of(t).push(m));
}

pub open spec fn has_prefix(s: Seq<char>, p: Seq<char>) -> bool {
    p.len() <= s.len() && s.subrange(0, p.len() as int) == p
}

pub open spec fn occurs_at(s: Seq<char>, p: Seq<char>, i: int) -> bool {
    0 <= i && i + p.len() <= s.len() && s.subrange(i, i + p.len()) == p
}

pub open spec fn contains(s: Seq<char>, p: Seq<char>) -> bool {
    exists|i: int| occurs_at(s, p, i)
}

/// The characters of the string, in order.
pub(crate) fn chars_of(s: &str) -> (r: Vec<char>)
    ensures
        r@ == s@,
{
    broadcast use vstd::string::axiom_spec_iter, vstd::string::next_postcondition;

    let mut it = s.chars();
    let mut r: Vec<char> = Vec::new();
    loop
        invariant
            it.obeys_prophetic_iter_laws(),
            it.decrease() is Some,
            r@ + it.remaining() == s@,
        ensures
            r@ == s@,
        decreases it.decrease()->0,
    {
        match it.next() {
            Some(c) => {
                r.push(c);
                assert(r@ + it.remaining() =~= s@);
            },
            None => {
                assert(r@ =~= s@);
                break;
            },
        }
    }
    r
}

/// Relies on `String`'s `FromIterator<char>`: the string of these characters.
#[verifier::external_body]
pub(crate) fn string_of(v: &[char]) -> (r: String)
    ensures
        r@ == v@,
{
    v.iter().collect()
}

/// The characters of `s` from `from` up to `to`.
pub fn copy_range(s: &Vec<char>, from: usize, to: usize) -> (r: Vec<char>)
    requires
        from <= to <= s.len(),
    ensures
        r@ == s@.subrange(from as int, to as int),
{
    let mut r: Vec<char> = Vec::new();
    let mut i: usize = from;
    while i < to
        invariant
            from <= i <= to <= s.len(),
            r@ == s@.subrange(from as int, i as int),
        decreases to - i,
    {
        r.push(s[i]);
        i += 1;
        assert(r@ =~= s@.subrange(from as int, i as int));
    }
    r
}

/// Cuts `s` at every occurrence of `c`.
pub fn split_chars(s: &Vec<char>, c: char) -> (r: Vec<Vec<char>>)
    ensures
        views(r@) == split_on(s@, c),
{
    let mut r: Vec<Vec<char>> = Vec::new();
    let mut cur: Vec<char> = Vec::new();
    let mut i: usize = 0;
    proof {
        assert(s@.take(0) =~= Seq::<char>::empty());
        assert(views(r@).push(cur@) =~= seq![Seq::<char>::empty()]);
    }
    while i < s.len()
        invariant
            0 <= i <= s.len(),
            views(r@).push(cur@) == split_on(s@.take(i as int), c),
        decreases s.len() - i,
    {
        let ghost before = views(r@).push(cur@);
        assert(s@.take(i + 1).drop_last() =~= s@.take(i as int));
        assert(s@.take(i + 1).last() == s@[i as int]);
        if s[i] == c {
            r.push(cur);
            cur = Vec::new();
            assert(views(r@).push(cur@) =~= before.push(Seq::empty()));
        } else {
            let ghost old_r = views(r@);
            cur.push(s[i]);
            assert(views(r@) == old_r);
            assert(views(r@).push(cur@) =~= before.update(
                before.len() - 1,
                before.last().push(s@[i as int]),
            ));
        }
        i += 1;
    }
    assert(s@.take(s.len() as int) =~= s@);
    let ghost old_r = views(r@);
    r.push(cur);
    assert(views(r@) =~= old_r.push(cur@));
    r
}

/// The lines of `text`, as `str::lines` gives them.
pub fn lines(text: &str) -> (r: Vec<Vec<char>>)
    ensures
        views(r@) == lines_of(text@),
{
    let chars = chars_of(text);
    let pieces = split_chars(&chars, '\n');
    proof {
        lemma_split_on_nonempty(text@, '\n');
    }
    let n = pieces.len();
    let k: usize = if pieces[n - 1].len() == 0 {
        n - 1
    } else {
        n
    };
    let ghost p = split_on(text@, '\n');
    assert(pieces[n - 1]@ == p.last());
    let mut r: Vec<Vec<char>> = Vec::new();
    let mut i: usize = 0;
    while i < k
        invariant
            0 <= i <= k <= n,
            n == pieces.len(),
            views(pieces@) == p,
            p == split_on(text@, '\n'),
            p.len() >= 1,
            k == (if p.last().len() == 0 { p.len() - 1 } else { p.len() as int }),
            views(r@) =~= lines_of(text@).take(i as int),
        decreases k - i,
    {
        let piece = &pieces[i];
        assert(piece@ == p[i as int]);
        assert(lines_of(text@).len() == k);
        let len = piece.len();
        let line = if i + 1 < n && len > 0 && piece[len - 1] == '\r' {
            copy_range(piece, 0, len - 1)
        } else {
            copy_range(piece, 0, len)
        };
        assert(line@ == lines_of(text@)[i as int]) by {
            assert(piece@.drop_last() =~= piece@.subrange(0, len - 1));
            assert(piece@ =~= piece@.subrange(0, len as int));
        }
        let ghost old_r = views(r@);
        r.push(line);
        assert(views(r@) =~= old_r.push(line@));
        i += 1;
    }
    r
}

/// Whether `s` begins with `p`.
pub fn starts_with(s: &Vec<char>, p: &Vec<char>) -> (r: bool)
    ensures
        r == has_prefix(s@, p@),
{
    occurs_here(s, p, 0)
}

/// Whether `p` occurs in `s` at position `at`.
fn occurs_here(s: &Vec<char>, p: &Vec<char>, at: usize) -> (r: bool)
    ensures
        r == occurs_at(s@, p@, at as int),
        at == 0 ==> (r == has_prefix(s@, p@)),
{
    if at > s.len() || p.len() > s.len() - at {
        return false;
    }
    let mut j: usize = 0;
    while j < p.len()
        invariant
            at + p.len() <= s.len(),
            0 <= j <= p.len(),
            forall|m: int| 0 <= m < j ==> s@[at + m] == p@[m],
        decreases p.len() - j,
    {
        if s[at + j] != p[j] {
            assert(s@.subrange(at as int, at + p.len())[j as int] != p@[j as int]);
            return false;
        }
        j += 1;
    }
    assert(s@.subrange(at as int, at + p.len()) =~= p@);
    true
}

/// The first position at which `p` occurs in `s`.
pub fn find(s: &Vec<char>, p: &Vec<char>) -> (r: Option<usize>)
    ensures
        r matches Some(i) ==> occurs_at(s@, p@, i as int) && forall|j: int|
            0 <= j < i ==> !occurs_at(s@, p@, j),
        r is None ==> forall|j: int| !occurs_at(s@, p@, j),
        r is Some <==> contains(s@, p@),
{
    if p.len() > s.len() {
        return None;
    }
    if p.len() == 0 {
        assert(s@.subrange(0, 0) =~= p@);
        assert(occurs_at(s@, p@, 0));
        return Some(0);
    }
    let mut i: usize = 0;
    while i <= s.len() - p.len()
        invariant
            p.len() <= s.len(),
            p.len() >= 1,
            0 <= i <= s.len() - p.len() + 1,
            forall|j: int| 0 <= j < i ==> !occurs_at(s@, p@, j),
        decreases s.len() - p.len() + 1 - i,
    {
        if occurs_here(s, p, i) {
            assert(occurs_at(s@, p@, i as int));
            return Some(i);
        }
        i += 1;
    }
    None
}

/// The last position of `c` in `s`, or -1.
pub open spec fn last_index_of(s: Seq<char>, c: char) -> int
    decreases s.len(),
{
    if s.len() == 0 {
        -1
    } else if s.last() == c {
        s.len() - 1
    } else {
        last_index_of(s.drop_last(), c)
    }
}

proof fn lemma_last_index_of_take(s: Seq<char>, c: char, i: int)
    requires
        0 <= i <= s.len(),
        forall|j: int| i <= j < s.len() ==> s[j] != c,
    ensures
        last_index_of(s.take(i), c) == last_index_of(s, c),
    decreases s.len() - i,
{
    if i < s.len() {
        assert(s.drop_last().take(i) =~= s.take(i));
        lemma_last_index_of_take(s.drop_last(), c, i);
    } else {
        assert(s.take(i) =~= s);
    }
}

/// The last position of `c` in `s`.
pub fn rfind(s: &Vec<char>, c: char) -> (r: Option<usize>)
    ensures
        r matches Some(i) ==> i == last_index_of(s@, c),
        r is None ==> last_index_of(s@, c) == -1,
        r matches Some(i) ==> i < s.len() && s@[i as int] == c && forall|j: int|
            i < j < s.len() ==> s@[j] != c,
        r is None ==> forall|j: int| 0 <= j < s.len() ==> s@[j] != c,
{
    let mut i: usize = s.len();
    while i > 0
        invariant
            0 <= i <= s.len(),
            forall|j: int| i <= j < s.len() ==> s@[j] != c,
        decreases i,
    {
        if s[i - 1] == c {
            proof {
                lemma_last_index_of_take(s@, c, i as int);
                assert(s@.take(i as int).last() == c);
            }
            return Some(i - 1);
        }
        i -= 1;
    }
    proof {
        lemma_last_index_of_take(s@, c, 0);
    }
    None
}

pub open spec fn is_digit(c: char) -> bool {
    '0' <= c <= '9'
}

pub open spec fn digit_value(c: char) -> nat {
    (c as u32 - '0' as u32) as nat
}

pub open spec fn digit_char(d: nat) -> char {
    seq!['0', '1', '2', '3', '4', '5', '6', '7', '8', '9'][d as int]
}

/// The decimal digits of `n`, without leading zeros.
pub open spec fn decimal(n: nat) -> Seq<char>
    decreases n,
{
    if n < 10 {
        seq![digit_char(n)]
    } else {
        decimal(n / 10).push(digit_char(n % 10))
    }
}

/// The number that a sequence of decimal digits denotes.
pub open spec fn digits_value(s: Seq<char>) -> nat
    decreases s.len(),
{
    if s.len() == 0 {
        0
    } else {
        digits_value(s.drop_last()) * 10 + digit_value(s.last())
    }
}

pub open spec fn all_digits(s: Seq<char>) -> bool {
    forall|i: int| 0 <= i < s.len() ==> is_digit(#[trigger] s[i])
}

/// The text after an optional leading `'+'` sign.
pub open spec fn unsigned_part(s: Seq<char>) -> Seq<char> {
    if s.len() > 1 && s[0] == '+' {
        s.drop_first()
    } else {
        s
    }
}

/// What `usize::from_str` gives: an optional `'+'`, then one or more digits,
/// denoting a number that fits in `usize`.
pub open spec fn parse_usize(s: Seq<char>) -> Option<nat> {
    let d = unsigned_part(s);
    if d.len() > 0 && all_digits(d) && digits_value(d) <= usize::MAX {
        Some(digits_value(d))
    } else {
        None
    }
}

proof fn lemma_digit_char(d: nat)
    requires
        d < 10,
    ensures
        is_digit(digit_char(d)),
        digit_value(digit_char(d)) == d,
{
}

/// Reading back the decimal digits of a number gives the number.
pub proof fn lemma_decimal_value(n: nat)
    ensures
        digits_value(decimal(n)) == n,
        all_digits(decimal(n)),
        decimal(n).len() >= 1,
    decreases n,
{
    if n < 10 {
        lemma_digit_char(n);
        assert(decimal(n).drop_last() =~= Seq::<char>::empty());
        assert(digits_value(Seq::<char>::empty()) == 0);
        assert(digits_value(decimal(n)) == n);
    } else {
        lemma_decimal_value(n / 10);
        lemma_digit_char(n % 10);
        assert(decimal(n).drop_last() =~= decimal(n / 10));
        assert(decimal(n).last() == digit_char(n % 10));
        assert(n == (n / 10) * 10 + n % 10);
        assert(digits_value(decimal(n)) == digits_value(decimal(n / 10)) * 10 + digit_value(
            digit_char(n % 10),
        ));
        assert forall|i: int| 0 <= i < decimal(n).len() implies is_digit(#[trigger] decimal(n)[i]) by {
            if i < decimal(n).len() - 1 {
                assert(decimal(n)[i] == decimal(n / 10)[i]);
            }
        }
    }
}

/// Distinct numbers have distinct decimal forms.
pub proof fn lemma_decimal_injective(a: nat, b: nat)
    requires
        a != b,
    ensures
        decimal(a) != decimal(b),
{
    lemma_decimal_value(a);
    lemma_decimal_value(b);
}

fn digit(d: usize) -> (r: char)
    requires
        d < 10,
    ensures
        r == digit_char(d as nat),
{
    if d == 0 {
        '0'
    } else if d == 1 {
        '1'
    } else if d == 2 {
        '2'
    } else if d == 3 {
        '3'
    } else if d == 4 {
        '4'
    } else if d == 5 {
        '5'
    } else if d == 6 {
        '6'
    } else if d == 7 {
        '7'
    } else if d == 8 {
        '8'
    } else {
        '9'
    }
}

/// Appends the decimal digits of `n` to `out`.
pub fn push_decimal(n: usize, out: &mut Vec<char>)
    ensures
        final(out)@ == old(out)@ + decimal(n as nat),
    decreases n,
{
    if n >= 10 {
        push_decimal(n / 10, out);
    }
    out.push(digit(n % 10));
    proof {
        if n < 10 {
            assert(old(out)@ + decimal(n as nat) =~= old(out)@.push(digit_char(n as nat)));
        } else {
            assert(old(out)@ + decimal(n as nat) =~= (old(out)@ + decimal(
                (n / 10) as nat,
            )).push(digit_char((n % 10) as nat)));
        }
    }
}

proof fn lemma_digits_value_monotone(s: Seq<char>, i: int)
    requires
        0 <= i <= s.len(),
    ensures
        digits_value(s.take(i)) <= digits_value(s),
    decreases s.len() - i,
{
    if i < s.len() {
        lemma_digits_value_monotone(s, i + 1);
        assert(s.take(i + 1).drop_last() =~= s.take(i));
    } else {
        assert(s.take(i) =~= s);
    }
}

/// Reads a `usize` written in decimal, as `usize::from_str` does.
pub fn parse_number(s: &Vec<char>) -> (r: Option<usize>)
    ensures
        r matches Some(v) ==> parse_usize(s@) == Some(v as nat),
        r is None ==> parse_usize(s@) is None,
{
    let start: usize = if s.len() > 1 && s[0] == '+' {
        1
    } else {
        0
    };
    let ghost d = unsigned_part(s@);
    assert(d =~= s@.subrange(start as int, s@.len() as int));
    if start >= s.len() {
        return None;
    }
    let mut v: usize = 0;
    let mut i: usize = start;
    while i < s.len()
        invariant
            start <= i <= s.len(),
            d == s@.subrange(start as int, s@.len() as int),
            d == unsigned_part(s@),
            all_digits(d.take(i - start)),
            v as nat == digits_value(d.take(i - start)),
        decreases s.len() - i,
    {
        let c = s[i];
        let ghost k = i - start;
        assert(d[k] == c);
        assert(d.take(k + 1).drop_last() =~= d.take(k));
        if !('0' <= c && c <= '9') {
            assert(!is_digit(d[k]));
            assert(!all_digits(d));
            assert(parse_usize(s@) is None);
            return None;
        }
        let dv = (c as u32 - '0' as u32) as usize;
        if v > (usize::MAX - dv) / 10 {
            proof {
                lemma_digits_value_monotone(d, k + 1);
                assert(d.take(k + 1).last() == c);
                assert(digits_value(d.take(k + 1)) == v * 10 + dv);
                assert(v * 10 + dv > usize::MAX) by (nonlinear_arith)
                    requires
                        v > (usize::MAX - dv) / 10,
                        dv < 10,
                ;
                assert(parse_usize(s@) is None);
            }
            return None;
        }
        assert(v * 10 + dv <= usize::MAX) by (nonlinear_arith)
            requires
                v <= (usize::MAX - dv) / 10,
                dv < 10,
        ;
        v = v * 10 + dv;
        i += 1;
    }
    assert(d.take(s.len() - start) =~= d);
    Some(v)
}

} // verus!
