//! The digit-grouping rule, stated over sequences of characters, with the
//! executable grouping of a character buffer and the laws that relate
//! grouping to its inverse.
use vstd::prelude::*;

verus! {

/// The separator written between groups of three digits.
pub const SEPARATOR: char = ',';

/// `s` with a separator before every third character counted from the
/// right, and none before the leftmost group.
pub open spec fn grouped(s: Seq<char>) -> Seq<char>
    decreases s.len(),
{
    if s.len() <= 3 {
        s
    } else {
        grouped(s.subrange(0, s.len() - 3)) + seq![SEPARATOR] + s.subrange(
            s.len() - 3,
            s.len() as int,
        )
    }
}

/// `s` with every separator taken out.
pub open spec fn without_separators(s: Seq<char>) -> Seq<char> {
    s.filter(|c: char| c != SEPARATOR)
}

/// A decimal digit.
pub open spec fn is_digit(c: char) -> bool {
    '0' <= c && c <= '9'
}

/// A non-negative decimal number written without separators, sign or
/// leading zero ("0" itself is one).
pub open spec fn is_plain_number(s: Seq<char>) -> bool {
    &&& s.len() > 0
    &&& forall|i: int| 0 <= i < s.len() ==> is_digit(#[trigger] s[i])
    &&& (s[0] != '0' || s.len() == 1)
}

/// A number in grouped form: its digits make a plain number, and the
/// separators stand exactly where grouping puts them.
pub open spec fn is_grouped_number(h: Seq<char>) -> bool {
    is_plain_number(without_separators(h)) && grouped(without_separators(h)) == h
}

/// Putting one more character in front of `t` adds that character, and a
/// separator after it when `t` is a non-empty run of whole groups.
proof fn lemma_grouped_prepend(c: char, t: Seq<char>)
    ensures
        grouped(seq![c] + t) == if t.len() % 3 == 0 && t.len() > 0 {
            seq![c, SEPARATOR] + grouped(t)
        } else {
            seq![c] + grouped(t)
        },
    decreases t.len(),
{
    let ct = seq![c] + t;
    if t.len() <= 2 {
        assert(ct.len() <= 3);
    } else if t.len() == 3 {
        assert(ct.subrange(0, 1) =~= seq![c]);
        assert(ct.subrange(1, 4) =~= t);
        assert(grouped(seq![c]) == seq![c]);
        assert(grouped(ct) =~= seq![c, SEPARATOR] + t);
    } else {
        let head = t.subrange(0, t.len() - 3);
        let tail = t.subrange(t.len() - 3, t.len() as int);
        lemma_grouped_prepend(c, head);
        assert(ct.subrange(0, ct.len() - 3) =~= seq![c] + head);
        assert(ct.subrange(ct.len() - 3, ct.len() as int) =~= tail);
        assert(grouped(t) == grouped(head) + seq![SEPARATOR] + tail);
        if t.len() % 3 == 0 {
            assert(grouped(ct) =~= seq![c, SEPARATOR] + grouped(t));
        } else {
            assert(grouped(ct) =~= seq![c] + grouped(t));
        }
    }
}

proof fn lemma_without_separators_concat(a: Seq<char>, b: Seq<char>)
    ensures
        without_separators(a + b) == without_separators(a) + without_separators(b),
{
    Seq::filter_distributes_over_add(a, b, |c: char| c != SEPARATOR);
}

/// A sequence that holds no separator is left as it is.
proof fn lemma_without_separators_none(s: Seq<char>)
    requires
        forall|i: int| 0 <= i < s.len() ==> s[i] != SEPARATOR,
    ensures
        without_separators(s) == s,
    decreases s.len(),
{
    reveal_with_fuel(Seq::filter, 1);
    if s.len() > 0 {
        lemma_without_separators_none(s.drop_last());
        assert(s.drop_last().push(s.last()) =~= s);
    }
}

/// Taking the separators out of a grouped sequence that held none gives the
/// sequence back.
pub proof fn lemma_ungroup_grouped(s: Seq<char>)
    requires
        forall|i: int| 0 <= i < s.len() ==> s[i] != SEPARATOR,
    ensures
        without_separators(grouped(s)) == s,
    decreases s.len(),
{
    if s.len() <= 3 {
        lemma_without_separators_none(s);
    } else {
        let head = s.subrange(0, s.len() - 3);
        let tail = s.subrange(s.len() - 3, s.len() as int);
        lemma_ungroup_grouped(head);
        lemma_without_separators_none(tail);
        reveal_with_fuel(Seq::filter, 2);
        assert(without_separators(seq![SEPARATOR]) =~= Seq::<char>::empty());
        lemma_without_separators_concat(grouped(head), seq![SEPARATOR]);
        lemma_without_separators_concat(grouped(head) + seq![SEPARATOR], tail);
        assert(head + tail =~= s);
    }
}

/// Grouping a plain number and then taking the separators out again gives
/// the number back, and what grouping produced is a well-formed grouped
/// number.
pub proof fn lemma_round_trip(p: Seq<char>)
    requires
        is_plain_number(p),
    ensures
        without_separators(grouped(p)) == p,
        is_grouped_number(grouped(p)),
{
    assert forall|i: int| 0 <= i < p.len() implies p[i] != SEPARATOR by {
        assert(is_digit(p[i]));
    }
    lemma_ungroup_grouped(p);
}

/// A plain number of at most three digits is left as it is.
pub proof fn lemma_short_unchanged(p: Seq<char>)
    requires
        is_plain_number(p),
        p.len() <= 3,
    ensures
        grouped(p) == p,
{
}

/// Where grouping puts each character: counted from the right, every fourth
/// position holds a separator and the others hold the digits in order; the
/// leftmost position holds a digit.
pub proof fn lemma_grouped_positions(s: Seq<char>)
    requires
        s.len() > 0,
    ensures
        grouped(s).len() == s.len() + (s.len() - 1) / 3,
        forall|j: int|
            0 <= j < grouped(s).len() ==> #[trigger] grouped(s)[grouped(s).len() - 1 - j] == if j
                % 4 == 3 {
                SEPARATOR
            } else {
                s[s.len() - 1 - (j - j / 4)]
            },
        grouped(s)[0] == s[0],
    decreases s.len(),
{
    let r = grouped(s);
    let n = s.len();
    if n <= 3 {
        assert forall|j: int| 0 <= j < r.len() implies #[trigger] r[r.len() - 1 - j] == if j % 4
            == 3 {
            SEPARATOR
        } else {
            s[n - 1 - (j - j / 4)]
        } by {
            assert(j / 4 == 0);
        }
    } else {
        let head = s.subrange(0, n - 3);
        lemma_grouped_positions(head);
        let g = grouped(head);
        assert(r == g + seq![SEPARATOR] + s.subrange(n - 3, n as int));
        assert((n - 1) / 3 == (n - 4) / 3 + 1);
        assert forall|j: int| 0 <= j < r.len() implies #[trigger] r[r.len() - 1 - j] == if j % 4
            == 3 {
            SEPARATOR
        } else {
            s[n - 1 - (j - j / 4)]
        } by {
            if j < 3 {
                assert(j / 4 == 0);
            } else if j == 3 {
            } else {
                let k = j - 4;
                assert(r[r.len() - 1 - j] == g[g.len() - 1 - k]);
                assert(k / 4 == j / 4 - 1);
                assert(k % 4 == j % 4);
            }
        }
        assert(r[0] == g[0]);
    }
}

/// Groups the characters of `s`, walking them from the right as the rule
/// counts them.
pub fn group_chars(s: &Vec<char>) -> (r: Vec<char>)
    ensures
        r@ == grouped(s@),
{
    let n = s.len();
    // the result, last character first
    let mut rev: Vec<char> = Vec::new();
    let mut j: usize = 0;
    while j < n
        invariant
            n == s@.len(),
            j <= n,
            rev@.reverse() == grouped(s@.subrange(n - j, n as int)),
        decreases n - j,
    {
        let c = s[n - 1 - j];
        let ghost done = s@.subrange(n - j, n as int);
        let ghost before = rev@;
        proof {
            lemma_grouped_prepend(c, done);
            assert(s@.subrange(n - (j + 1), n as int) =~= seq![c] + done);
        }
        if j % 3 == 0 && j != 0 {
            rev.push(SEPARATOR);
        }
        rev.push(c);
        proof {
            if j % 3 == 0 && j != 0 {
                assert(rev@ =~= before.push(SEPARATOR).push(c));
                assert(rev@.reverse() =~= seq![c, SEPARATOR] + before.reverse());
            } else {
                assert(rev@.reverse() =~= seq![c] + before.reverse());
            }
        }
        j = j + 1;
    }
    assert(s@.subrange(0, n as int) =~= s@);
    let m = rev.len();
    let mut r: Vec<char> = Vec::new();
    let mut k: usize = 0;
    while k < m
        invariant
            m == rev@.len(),
            k <= m,
            r@ =~= rev@.reverse().subrange(0, k as int),
        decreases m - k,
    {
        r.push(rev[m - 1 - k]);
        k = k + 1;
    }
    assert(r@ =~= rev@.reverse());
    r
}

/// Relies on `String::push` of std: it appends one character to the string.
pub assume_specification[ String::push ](s: &mut String, ch: char)
    ensures
        final(s)@ == old(s)@.push(ch),
;

/// The characters of `s`, in order.
pub fn chars_of(s: &str) -> (r: Vec<char>)
    ensures
        r@ == s@,
{
    let mut r: Vec<char> = Vec::new();
    for c in it: s.chars()
        invariant
            it.seq() == s@,
            r@ == it.seq().subrange(0, it.index() as int),
    {
        r.push(c);
    }
    r
}

/// The string made of the characters of `v`, in order.
pub fn string_of(v: &Vec<char>) -> (r: String)
    ensures
        r@ == v@,
{
    let mut r = String::new();
    let n = v.len();
    let mut i: usize = 0;
    while i < n
        invariant
            n == v@.len(),
            i <= n,
            r@ =~= v@.subrange(0, i as int),
        decreases n - i,
    {
        r.push(v[i]);
        i = i + 1;
    }
    r
}

/// The characters of `s` that are not separators, in order.
pub fn strip_separators(s: &Vec<char>) -> (r: Vec<char>)
    ensures
        r@ == without_separators(s@),
{
    let n = s.len();
    let mut r: Vec<char> = Vec::new();
    let mut i: usize = 0;
    while i < n
        invariant
            n == s@.len(),
            i <= n,
            r@ == without_separators(s@.subrange(0, i as int)),
        decreases n - i,
    {
        let c = s[i];
        proof {
            assert(s@.subrange(0, i + 1) =~= s@.subrange(0, i as int).push(c));
            s@.subrange(0, i as int).lemma_filter_push(c, |c: char| c != SEPARATOR);
        }
        if c != SEPARATOR {
            r.push(c);
        }
        i = i + 1;
    }
    assert(s@.subrange(0, n as int) =~= s@);
    r
}

/// Whether `s` is a plain number.
pub fn check_plain_number(s: &Vec<char>) -> (r: bool)
    ensures
        r == is_plain_number(s@),
{
    let n = s.len();
    if n == 0 {
        return false;
    }
    if s[0] == '0' && n != 1 {
        return false;
    }
    let mut i: usize = 0;
    while i < n
        invariant
            n == s@.len(),
            i <= n,
            forall|k: int| 0 <= k < i ==> is_digit(#[trigger] s@[k]),
        decreases n - i,
    {
        let c = s[i];
        if !('0' <= c && c <= '9') {
            return false;
        }
        i = i + 1;
    }
    true
}

/// Whether `a` and `b` hold the same characters in the same order.
pub fn same_chars(a: &Vec<char>, b: &Vec<char>) -> (r: bool)
    ensures
        r == (a@ == b@),
{
    if a.len() != b.len() {
        return false;
    }
    let n = a.len();
    let mut i: usize = 0;
    while i < n
        invariant
            n == a@.len(),
            n == b@.len(),
            i <= n,
            forall|k: int| 0 <= k < i ==> a@[k] == b@[k],
        decreases n - i,
    {
        if a[i] != b[i] {
            return false;
        }
        i = i + 1;
    }
    assert(a@ =~= b@);
    true
}

} // verus!
