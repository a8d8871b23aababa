//! Character-level text handling: lines of command output, fields of a line,
//! the byte-wise order of paths, and sorting by it.
use vstd::prelude::*;
use vstd::multiset::Multiset;
use vstd::relations::{sorted_by, total_ordering};
use vstd::seq_lib::lemma_sorted_unique;
use vstd::utf8::char_u32_cast;

verus! {

broadcast use vstd::seq_lib::group_to_multiset_ensures, vstd::seq_lib::to_multiset_insert,
    vstd::multiset::group_multiset_axioms;

/// The index of the first `c` in `s` at or after `i`, or `s.len()` if there is none.
pub open spec fn find_from(s: Seq<char>, i: int, c: char) -> int
    decreases s.len() - i,
{
    if 0 <= i < s.len() {
        if s[i] == c {
            i
        } else {
            find_from(s, i + 1, c)
        }
    } else {
        s.len() as int
    }
}

/// `find_from` lands on `c` or on the end, and passes over no `c` on the way.
pub proof fn lemma_find_from_bounds(s: Seq<char>, i: int, c: char)
    requires
        0 <= i,
    ensures
        i <= s.len() ==> i <= find_from(s, i, c) <= s.len(),
        find_from(s, i, c) <= s.len(),
        find_from(s, i, c) < s.len() ==> s[find_from(s, i, c)] == c,
        forall|k: int| i <= k < find_from(s, i, c) ==> s[k] != c,
    decreases s.len() - i,
{
    if 0 <= i < s.len() && s[i] != c {
        lemma_find_from_bounds(s, i + 1, c);
    }
}

/// A line without the carriage return that may end it.
pub open spec fn strip_cr(l: Seq<char>) -> Seq<char> {
    if l.len() > 0 && l.last() == '\r' {
        l.drop_last()
    } else {
        l
    }
}

#[via_fn]
proof fn lines_from_decreases(s: Seq<char>, i: int) {
    if 0 <= i < s.len() {
        lemma_find_from_bounds(s, i, '\n');
        assert(i <= find_from(s, i, '\n') <= s.len());
    }
}

/// The lines of `s` from index `i` on: pieces between line feeds, a trailing
/// line feed ending the last line rather than starting an empty one.
pub open spec fn lines_from(s: Seq<char>, i: int) -> Seq<Seq<char>>
    decreases s.len() + 1 - i,
    via lines_from_decreases
{
    if 0 <= i < s.len() {
        let j = find_from(s, i, '\n');
        seq![strip_cr(s.subrange(i, j))] + lines_from(s, j + 1)
    } else {
        seq![]
    }
}

/// The lines of a text, as `str::lines` gives them.
pub open spec fn lines_of(s: Seq<char>) -> Seq<Seq<char>> {
    lines_from(s, 0)
}

/// The first line of a text, or the empty sequence if it has none.
pub open spec fn first_line_of(s: Seq<char>) -> Seq<char> {
    if lines_of(s).len() > 0 {
        lines_of(s)[0]
    } else {
        seq![]
    }
}

/// The third of the fields that single spaces separate in `l`, or the empty
/// sequence when `l` has fewer than three.
pub open spec fn third_field(l: Seq<char>) -> Seq<char> {
    let a = find_from(l, 0, ' ');
    let b = find_from(l, a + 1, ' ');
    if b < l.len() {
        l.subrange(b + 1, find_from(l, b + 1, ' '))
    } else {
        seq![]
    }
}

/// `a` comes no later than `b`, comparing from index `i` on, character by character.
pub open spec fn le_from(a: Seq<char>, b: Seq<char>, i: int) -> bool
    decreases a.len() - i,
{
    if i < 0 || i >= a.len() {
        true
    } else if i >= b.len() {
        false
    } else if (a[i] as u32) < (b[i] as u32) {
        true
    } else if a[i] == b[i] {
        le_from(a, b, i + 1)
    } else {
        false
    }
}

/// Lexicographic order of paths. Ordering characters by code point orders
/// their UTF-8 encodings by byte value, so this is the order of `str`'s `Ord`.
pub open spec fn path_le(a: Seq<char>, b: Seq<char>) -> bool {
    le_from(a, b, 0)
}

/// The order of paths, as a relation.
pub open spec fn path_order() -> spec_fn(Seq<char>, Seq<char>) -> bool {
    |a: Seq<char>, b: Seq<char>| path_le(a, b)
}

proof fn lemma_le_from_reflexive(a: Seq<char>, i: int)
    requires
        0 <= i,
    ensures
        le_from(a, a, i),
    decreases a.len() - i,
{
    if i < a.len() {
        lemma_le_from_reflexive(a, i + 1);
    }
}

proof fn lemma_le_from_antisymmetric(a: Seq<char>, b: Seq<char>, i: int)
    requires
        0 <= i <= a.len(),
        i <= b.len(),
        le_from(a, b, i),
        le_from(b, a, i),
    ensures
        a.len() == b.len(),
        forall|k: int| i <= k < a.len() ==> a[k] == b[k],
    decreases a.len() - i,
{
    if i < a.len() && i < b.len() {
        lemma_le_from_antisymmetric(a, b, i + 1);
    }
}

proof fn lemma_le_from_transitive(a: Seq<char>, b: Seq<char>, c: Seq<char>, i: int)
    requires
        0 <= i,
        le_from(a, b, i),
        le_from(b, c, i),
    ensures
        le_from(a, c, i),
    decreases a.len() - i,
{
    if i < a.len() && i < b.len() && i < c.len() && a[i] == b[i] && b[i] == c[i] {
        lemma_le_from_transitive(a, b, c, i + 1);
    }
}

proof fn lemma_le_from_connected(a: Seq<char>, b: Seq<char>, i: int)
    requires
        0 <= i,
    ensures
        le_from(a, b, i) || le_from(b, a, i),
    decreases a.len() - i,
{
    if i < a.len() && i < b.len() {
        char_u32_cast(a[i], a[i] as u32);
        char_u32_cast(b[i], b[i] as u32);
        if a[i] == b[i] {
            lemma_le_from_connected(a, b, i + 1);
        }
    }
}

/// The order of paths is a total order.
pub proof fn lemma_path_order_total()
    ensures
        total_ordering(path_order()),
{
    assert forall|a: Seq<char>| #[trigger] path_order()(a, a) by {
        lemma_le_from_reflexive(a, 0);
    }
    assert forall|a: Seq<char>, b: Seq<char>|
        #[trigger] path_order()(a, b) && #[trigger] path_order()(b, a) implies a == b by {
        lemma_le_from_antisymmetric(a, b, 0);
        assert(a =~= b);
    }
    assert forall|a: Seq<char>, b: Seq<char>, c: Seq<char>|
        #[trigger] path_order()(a, b) && #[trigger] path_order()(b, c) implies path_order()(
        a,
        c,
    ) by {
        lemma_le_from_transitive(a, b, c, 0);
    }
    assert forall|a: Seq<char>, b: Seq<char>|
        #[trigger] path_order()(a, b) || #[trigger] path_order()(b, a) by {
        lemma_le_from_connected(a, b, 0);
    }
}

/// The characters of `s`, in order.
pub fn chars_of(s: &str) -> (r: Vec<char>)
    ensures
        r@ == s@,
{
    let mut r: Vec<char> = Vec::new();
    for c in it: s.chars()
        invariant
            r@ == it.seq().take(it.index() as int),
            it.seq() == s@,
    {
        r.push(c);
    }
    r
}

/// Relies on `String`'s `FromIterator<char>`: the string holds the given characters in order.
#[verifier::external_body]
pub(crate) fn string_of(v: Vec<char>) -> (r: String)
    ensures
        r@ == v@,
{
    String::from_iter(v)
}

/// Whether `a` comes no later than `b` in the order of paths.
pub fn path_leq(a: &Vec<char>, b: &Vec<char>) -> (r: bool)
    ensures
        r == path_le(a@, b@),
{
    let mut i: usize = 0;
    while i < a.len()
        invariant
            i <= a.len(),
            le_from(a@, b@, 0) == le_from(a@, b@, i as int),
        decreases a.len() - i,
    {
        if i >= b.len() {
            return false;
        }
        if (a[i] as u32) < (b[i] as u32) {
            return true;
        }
        if a[i] != b[i] {
            return false;
        }
        i = i + 1;
    }
    true
}

/// The character sequences that a vector of character vectors holds.
pub open spec fn seqs_of(v: Seq<Vec<char>>) -> Seq<Seq<char>> {
    Seq::new(v.len(), |i: int| v[i]@)
}

/// The index of the first `c` in `s` at or after `i`, or `s.len()` if there is none.
pub fn find_char(s: &Vec<char>, i: usize, c: char) -> (r: usize)
    ensures
        r as int == find_from(s@, i as int, c),
{
    let mut j: usize = i;
    while j < s.len() && s[j] != c
        invariant
            i <= j,
            find_from(s@, j as int, c) == find_from(s@, i as int, c),
        decreases s.len() - j,
    {
        j = j + 1;
    }
    if j > s.len() {
        s.len()
    } else {
        j
    }
}

/// A copy of `s[from..to]`.
pub fn sub_chars(s: &Vec<char>, from: usize, to: usize) -> (r: Vec<char>)
    requires
        from <= to <= s.len(),
    ensures
        r@ == s@.subrange(from as int, to as int),
{
    let mut r: Vec<char> = Vec::new();
    let mut k: usize = from;
    while k < to
        invariant
            from <= k <= to,
            to <= s.len(),
            r@ == s@.subrange(from as int, k as int),
        decreases to - k,
    {
        r.push(s[k]);
        k = k + 1;
    }
    r
}

/// The lines of a text, as `str::lines` gives them.
pub fn split_lines(s: &Vec<char>) -> (r: Vec<Vec<char>>)
    ensures
        seqs_of(r@) == lines_of(s@),
{
    let mut r: Vec<Vec<char>> = Vec::new();
    let mut i: usize = 0;
    while i < s.len()
        invariant
            seqs_of(r@) + lines_from(s@, i as int) == lines_of(s@),
        decreases s.len() - i,
    {
        let j = find_char(s, i, '\n');
        proof {
            lemma_find_from_bounds(s@, i as int, '\n');
        }
        let mut end: usize = j;
        if end > i && s[end - 1] == '\r' {
            end = end - 1;
        }
        let line = sub_chars(s, i, end);
        assert(line@ == strip_cr(s@.subrange(i as int, j as int)));
        let ghost before = seqs_of(r@);
        r.push(line);
        assert(seqs_of(r@) =~= before.push(line@));
        assert(lines_from(s@, i as int) == seq![line@] + lines_from(s@, j + 1));
        assert(seqs_of(r@) + lines_from(s@, j + 1) =~= before + lines_from(s@, i as int));
        if j < s.len() {
            i = j + 1;
        } else {
            i = j;
            assert(lines_from(s@, j + 1) == lines_from(s@, j as int));
        }
    }
    assert(seqs_of(r@) =~= lines_of(s@));
    r
}

/// The first line of a text, or an empty line if it has none.
pub fn first_line(s: &Vec<char>) -> (r: Vec<char>)
    ensures
        r@ == first_line_of(s@),
{
    let mut ls = split_lines(s);
    if ls.len() > 0 {
                ls.remove(0)
    } else {
        Vec::new()
    }
}

/// The third of the fields that single spaces separate in `l`, or an empty
/// field when `l` has fewer than three.
pub fn third_field_of(l: &Vec<char>) -> (r: Vec<char>)
    ensures
        r@ == third_field(l@),
{
    let a = find_char(l, 0, ' ');
    if a >= l.len() {
        assert(find_from(l@, a + 1, ' ') == l@.len());
        return Vec::new();
    }
    let b = find_char(l, a + 1, ' ');
    if b >= l.len() {
        return Vec::new();
    }
    let c = find_char(l, b + 1, ' ');
    proof {
        lemma_find_from_bounds(l@, b + 1, ' ');
    }
    sub_chars(l, b + 1, c)
}

/// The paths of `v` in the order of paths.
pub fn sort_paths(v: Vec<Vec<char>>) -> (r: Vec<Vec<char>>)
    ensures
        seqs_of(r@) == seqs_of(v@).sort_by(path_order()),
{
    let ghost leq = path_order();
    proof {
        lemma_path_order_total();
    }
    let mut rest = v;
    let mut r: Vec<Vec<char>> = Vec::new();
    while rest.len() > 0
        invariant
            total_ordering(leq),
            leq == path_order(),
            sorted_by(seqs_of(r@), leq),
            seqs_of(r@).to_multiset().add(seqs_of(rest@).to_multiset())
                == seqs_of(v@).to_multiset(),
        decreases rest.len(),
    {
        let ghost rest_before = seqs_of(rest@);
        let x = rest.pop().unwrap();
        proof {
            assert(rest_before =~= seqs_of(rest@).push(x@));
        }
        let mut j: usize = 0;
        while j < r.len() && path_leq(&r[j], &x)
            invariant
                j <= r.len(),
                forall|k: int| 0 <= k < j ==> path_le(#[trigger] seqs_of(r@)[k], x@),
            decreases r.len() - j,
        {
            j = j + 1;
        }
        let ghost before = seqs_of(r@);
        r.insert(j, x);
        proof {
            assert(seqs_of(r@) =~= before.insert(j as int, x@));
            assert forall|a: int, b: int| 0 <= a < b < seqs_of(r@).len() implies #[trigger] leq(
                seqs_of(r@)[a],
                seqs_of(r@)[b],
            ) by {
                if b < j {
                } else if a < j && b == j {
                } else if a < j {
                    assert(leq(before[a], before[b - 1]));
                } else if a == j {
                    assert(!path_le(before[j as int], x@));
                    assert(leq(x@, before[j as int]) || leq(before[j as int], x@));
                    if b > j + 1 {
                        assert(leq(before[j as int], before[b - 1]));
                    }
                } else {
                    assert(leq(before[a - 1], before[b - 1]));
                }
            }
        }
    }
    proof {
        assert(seqs_of(rest@) =~= Seq::<Seq<char>>::empty());
        seqs_of(v@).lemma_sort_by_ensures(leq);
        assert(seqs_of(rest@).to_multiset() =~= Multiset::empty());
        assert(seqs_of(r@).to_multiset() =~= seqs_of(v@).to_multiset());
        lemma_sorted_unique(seqs_of(r@), seqs_of(v@).sort_by(leq), leq);
    }
    r
}

/// Whether two character vectors hold the same characters.
pub fn same_chars(a: &Vec<char>, b: &Vec<char>) -> (r: bool)
    ensures
        r == (a@ == b@),
{
    if a.len() != b.len() {
        return false;
    }
    let mut i: usize = 0;
    while i < a.len()
        invariant
            i <= a.len() == b.len(),
            a@.take(i as int) == b@.take(i as int),
        decreases a.len() - i,
    {
        if a[i] != b[i] {
            return false;
        }
        assert(a@.take(i + 1) =~= a@.take(i as int).push(a@[i as int]));
        assert(b@.take(i + 1) =~= b@.take(i as int).push(b@[i as int]));
        i = i + 1;
    }
    assert(a@ =~= a@.take(i as int));
    assert(b@ =~= b@.take(i as int));
    true
}

/// Whether `v` holds the path `p`.
pub fn contains_path(v: &Vec<Vec<char>>, p: &Vec<char>) -> (r: bool)
    ensures
        r == seqs_of(v@).contains(p@),
{
    let mut j: usize = 0;
    while j < v.len()
        invariant
            j <= v.len(),
            forall|k: int| 0 <= k < j ==> seqs_of(v@)[k] != p@,
        decreases v.len() - j,
    {
        if same_chars(&v[j], p) {
            assert(seqs_of(v@)[j as int] == p@);
            return true;
        }
        j = j + 1;
    }
    false
}

} // verus!
