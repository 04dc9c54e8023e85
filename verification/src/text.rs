//! Verified operations on character text: joining, ordering, sorting,
//! search-and-replace and decimal rendering.

use vstd::prelude::*;

verus! {

/// The parts, with `sep` between each two consecutive ones.
pub open spec fn join_spec(parts: Seq<Seq<char>>, sep: Seq<char>) -> Seq<char>
    decreases parts.len(),
{
    if parts.len() == 0 {
        Seq::empty()
    } else if parts.len() == 1 {
        parts[0]
    } else {
        join_spec(parts.drop_last(), sep) + sep + parts.last()
    }
}

/// The views of a vector of strings.
pub open spec fn views_of(v: Seq<String>) -> Seq<Seq<char>> {
    v.map_values(|s: String| s@)
}

/// Joins the strings of `parts` with `sep` between consecutive ones.
pub fn join_strings(parts: &Vec<String>, sep: &str) -> (res: String)
    ensures
        res@ == join_spec(views_of(parts@), sep@),
{
    let mut res = String::new();
    let ghost views = views_of(parts@);
    let mut i: usize = 0;
    while i < parts.len()
        invariant
            0 <= i <= parts.len(),
            views == views_of(parts@),
            res@ == join_spec(views.take(i as int), sep@),
        decreases parts.len() - i,
    {
        if i > 0 {
            res.append(sep);
        }
        res.append(parts[i].as_str());
        proof {
            assert(views.take(i + 1).drop_last() =~= views.take(i as int));
        }
        i += 1;
    }
    proof {
        assert(views.take(parts.len() as int) =~= views);
    }
    res
}


/// Lexicographic order on character text, characters compared by code point
/// (for valid text this is the order Rust's `str` comparison uses).
pub open spec fn lex_le(a: Seq<char>, b: Seq<char>) -> bool
    decreases a.len(),
{
    if a.len() == 0 {
        true
    } else if b.len() == 0 {
        false
    } else if a[0] != b[0] {
        (a[0] as u32) < (b[0] as u32)
    } else {
        lex_le(a.drop_first(), b.drop_first())
    }
}

proof fn lemma_lex_le_skip(a: Seq<char>, b: Seq<char>, i: int)
    requires
        0 <= i <= a.len(),
        i <= b.len(),
        a.take(i) =~= b.take(i),
    ensures
        lex_le(a, b) == lex_le(a.skip(i), b.skip(i)),
    decreases i,
{
    if i > 0 {
        assert(a[0] == a.take(i)[0]);
        assert(b[0] == b.take(i)[0]);
        let a1 = a.drop_first();
        let b1 = b.drop_first();
        assert(a1.take(i - 1) =~= b1.take(i - 1)) by {
            assert forall|k: int| 0 <= k < i - 1 implies #[trigger] a1.take(i - 1)[k] == b1.take(i - 1)[k] by {
                assert(a.take(i)[k + 1] == b.take(i)[k + 1]);
            }
        }
        assert(a.len() > 0 && b.len() > 0);
        assert(lex_le(a, b) == lex_le(a1, b1));
        lemma_lex_le_skip(a1, b1, i - 1);
        assert(a1.skip(i - 1) =~= a.skip(i));
        assert(b1.skip(i - 1) =~= b.skip(i));
    } else {
        assert(a.skip(0) =~= a);
        assert(b.skip(0) =~= b);
    }
}

/// Whether the text of `a` comes no later than that of `b`.
pub fn text_le(a: &str, b: &str) -> (r: bool)
    ensures
        r == lex_le(a@, b@),
{
    let la = a.unicode_len();
    let lb = b.unicode_len();
    let mut i: usize = 0;
    while i < la && i < lb
        invariant
            la == a@.len(),
            lb == b@.len(),
            0 <= i <= la,
            i <= lb,
            a@.take(i as int) =~= b@.take(i as int),
        decreases la - i,
    {
        let ca = a.get_char(i);
        let cb = b.get_char(i);
        if ca != cb {
            proof {
                lemma_lex_le_skip(a@, b@, i as int);
                assert(a@.skip(i as int)[0] == ca);
                assert(b@.skip(i as int)[0] == cb);
            }
            return (ca as u32) < (cb as u32);
        }
        proof {
            assert(a@.take(i + 1) =~= a@.take(i as int).push(ca));
            assert(b@.take(i + 1) =~= b@.take(i as int).push(cb));
        }
        i += 1;
    }
    proof {
        lemma_lex_le_skip(a@, b@, i as int);
    }
    i == la
}

/// Whether two texts are the same.
pub fn text_eq(a: &str, b: &str) -> (r: bool)
    ensures
        r == (a@ == b@),
{
    let la = a.unicode_len();
    let lb = b.unicode_len();
    if la != lb {
        return false;
    }
    let mut i: usize = 0;
    while i < la
        invariant
            la == a@.len(),
            lb == b@.len(),
            la == lb,
            0 <= i <= la,
            a@.take(i as int) =~= b@.take(i as int),
        decreases la - i,
    {
        let ca = a.get_char(i);
        let cb = b.get_char(i);
        if ca != cb {
            return false;
        }
        proof {
            assert(a@.take(i + 1) =~= a@.take(i as int).push(ca));
            assert(b@.take(i + 1) =~= b@.take(i as int).push(cb));
        }
        i += 1;
    }
    proof {
        assert(a@.take(la as int) =~= a@);
        assert(b@.take(la as int) =~= b@);
    }
    true
}

/// `x` placed in front of the first element of `s` that it does not come
/// after (at the end when there is none).
pub open spec fn insert_sorted(x: Seq<char>, s: Seq<Seq<char>>) -> Seq<Seq<char>>
    decreases s.len(),
{
    if s.len() == 0 {
        seq![x]
    } else if lex_le(x, s[0]) {
        seq![x] + s
    } else {
        seq![s[0]] + insert_sorted(x, s.drop_first())
    }
}

/// The texts of `s` in ascending lexicographic order.
pub open spec fn sort_texts(s: Seq<Seq<char>>) -> Seq<Seq<char>>
    decreases s.len(),
{
    if s.len() == 0 {
        s
    } else {
        insert_sorted(s[0], sort_texts(s.drop_first()))
    }
}

proof fn lemma_insert_sorted_at(x: Seq<char>, s: Seq<Seq<char>>, p: int)
    requires
        0 <= p <= s.len(),
        forall|q: int| 0 <= q < p ==> !lex_le(x, #[trigger] s[q]),
        p < s.len() ==> lex_le(x, s[p]),
    ensures
        insert_sorted(x, s) =~= s.take(p) + seq![x] + s.skip(p),
    decreases s.len(),
{
    if s.len() == 0 {
    } else if p == 0 {
        assert(s.skip(0) =~= s);
    } else {
        let t = s.drop_first();
        assert forall|q: int| 0 <= q < p - 1 implies !lex_le(x, #[trigger] t[q]) by {
            assert(t[q] == s[q + 1]);
        }
        assert(!lex_le(x, s[0]));
        lemma_insert_sorted_at(x, t, p - 1);
        assert(s.take(p) =~= seq![s[0]] + t.take(p - 1));
        assert(s.skip(p) =~= t.skip(p - 1));
    }
}

/// Inserts `x` into `v` where `insert_sorted` places it.
fn insert_text_sorted(v: &mut Vec<String>, x: String)
    ensures
        views_of(final(v)@) == insert_sorted(x@, views_of(old(v)@)),
{
    let ghost s = views_of(v@);
    let mut p: usize = 0;
    while p < v.len()
        invariant
            0 <= p <= v.len(),
            s == views_of(v@),
            forall|q: int| 0 <= q < p ==> !lex_le(x@, #[trigger] s[q]),
        ensures
            0 <= p <= v.len(),
            forall|q: int| 0 <= q < p ==> !lex_le(x@, #[trigger] s[q]),
            p < v.len() ==> lex_le(x@, s[p as int]),
        decreases v.len() - p,
    {
        if text_le(x.as_str(), v[p].as_str()) {
            break;
        }
        p += 1;
    }
    proof {
        lemma_insert_sorted_at(x@, s, p as int);
    }
    v.insert(p, x);
    proof {
        assert(views_of(v@) =~= s.take(p as int) + seq![x@] + s.skip(p as int));
    }
}

/// The strings of `v`, sorted in ascending lexicographic order.
pub fn sort_strings(v: Vec<String>) -> (res: Vec<String>)
    ensures
        views_of(res@) == sort_texts(views_of(v@)),
{
    let ghost s = views_of(v@);
    let mut res: Vec<String> = Vec::new();
    let mut v = v;
    let n = v.len();
    let mut i: usize = n;
    proof {
        assert(s.skip(n as int) =~= Seq::<Seq<char>>::empty());
        assert(views_of(res@) =~= Seq::<Seq<char>>::empty());
    }
    while i > 0
        invariant
            n == s.len(),
            0 <= i <= n,
            v@.len() == i,
            views_of(v@) == s.take(i as int),
            views_of(res@) == sort_texts(s.skip(i as int)),
        decreases i,
    {
        let ghost before = v@;
        let x = v.pop().unwrap();
        proof {
            assert(views_of(before)[i - 1] == before[i - 1]@);
            assert(s.take(i as int)[i - 1] == s[i - 1]);
            assert(x@ == s[i - 1]);
            assert(views_of(v@) =~= s.take(i - 1));
            assert(s.skip(i - 1).drop_first() =~= s.skip(i as int));
            assert(s.skip(i - 1)[0] == s[i - 1]);
        }
        insert_text_sorted(&mut res, x);
        i -= 1;
    }
    proof {
        assert(s.skip(0) =~= s);
    }
    res
}

/// The decimal text of a single digit.
pub open spec fn digit_text(d: nat) -> Seq<char> {
    if d == 0 { "0"@ }
    else if d == 1 { "1"@ }
    else if d == 2 { "2"@ }
    else if d == 3 { "3"@ }
    else if d == 4 { "4"@ }
    else if d == 5 { "5"@ }
    else if d == 6 { "6"@ }
    else if d == 7 { "7"@ }
    else if d == 8 { "8"@ }
    else { "9"@ }
}

/// The decimal text of a natural number, without leading zeros.
pub open spec fn decimal_text(n: nat) -> Seq<char>
    decreases n,
{
    if n < 10 {
        digit_text(n)
    } else {
        decimal_text(n / 10) + digit_text(n % 10)
    }
}

fn digit_str(d: u32) -> (s: &'static str)
    requires
        d < 10,
    ensures
        s@ == digit_text(d as nat),
{
    if d == 0 { "0" }
    else if d == 1 { "1" }
    else if d == 2 { "2" }
    else if d == 3 { "3" }
    else if d == 4 { "4" }
    else if d == 5 { "5" }
    else if d == 6 { "6" }
    else if d == 7 { "7" }
    else if d == 8 { "8" }
    else { "9" }
}

/// The decimal text of `n`.
pub fn decimal_string(n: u32) -> (s: String)
    ensures
        s@ == decimal_text(n as nat),
    decreases n,
{
    if n < 10 {
        String::from_str(digit_str(n))
    } else {
        let mut s = decimal_string(n / 10);
        s.append(digit_str(n % 10));
        s
    }
}


/// `s` with every occurrence of `from` replaced by `to`, occurrences taken
/// left to right without overlap; an empty `from` matches before every
/// character and at the end (as `str::replace` does).
pub open spec fn replace_text(s: Seq<char>, from: Seq<char>, to: Seq<char>) -> Seq<char>
    decreases s.len(),
{
    if from.len() == 0 {
        if s.len() == 0 {
            to
        } else {
            to + seq![s[0]] + replace_text(s.drop_first(), from, to)
        }
    } else if s.len() < from.len() {
        s
    } else if s.take(from.len() as int) == from {
        to + replace_text(s.skip(from.len() as int), from, to)
    } else {
        seq![s[0]] + replace_text(s.drop_first(), from, to)
    }
}

/// `s` with every occurrence of `from` replaced by `to`.
pub fn replace_string(s: &str, from: &str, to: &str) -> (res: String)
    ensures
        res@ == replace_text(s@, from@, to@),
{
    let n = s.unicode_len();
    let m = from.unicode_len();
    let mut res = String::new();
    let mut i: usize = 0;
    proof {
        assert(s@.skip(0) =~= s@);
        assert(res@ + replace_text(s@, from@, to@) =~= replace_text(s@, from@, to@));
    }
    if m == 0 {
        while i < n
            invariant
                n == s@.len(),
                m == from@.len(),
                m == 0,
                0 <= i <= n,
                replace_text(s@, from@, to@) == res@ + replace_text(s@.skip(i as int), from@, to@),
            decreases n - i,
        {
            let c = s.substring_char(i, i + 1);
            proof {
                let t = s@.skip(i as int);
                assert(t.len() > 0);
                assert(c@ =~= seq![t[0]]);
                assert(t.drop_first() =~= s@.skip(i + 1));
                assert(res@ + (to@ + seq![t[0]] + replace_text(t.drop_first(), from@, to@))
                    =~= (res@ + to@ + c@) + replace_text(s@.skip(i + 1), from@, to@));
            }
            res.append(to);
            res.append(c);
            i += 1;
        }
        proof {
            let t = s@.skip(n as int);
            assert(t.len() == 0);
            assert(replace_text(t, from@, to@) == to@);
        }
        res.append(to);
        return res;
    }
    proof {
        assert(s@.skip(0) =~= s@);
    }
    while i < n
        invariant
            n == s@.len(),
            m == from@.len(),
            m > 0,
            0 <= i <= n,
            replace_text(s@, from@, to@) == res@ + replace_text(s@.skip(i as int), from@, to@),
        decreases n - i,
    {
        let t = Ghost(s@.skip(i as int));
        if n - i >= m && text_eq(s.substring_char(i, i + m), from) {
            proof {
                assert(t@.take(m as int) =~= s@.subrange(i as int, i + m));
                assert(t@.skip(m as int) =~= s@.skip(i + m));
                assert(res@ + (to@ + replace_text(t@.skip(m as int), from@, to@))
                    =~= (res@ + to@) + replace_text(s@.skip(i + m), from@, to@));
            }
            res.append(to);
            i += m;
        } else {
            let c = s.substring_char(i, i + 1);
            proof {
                assert(c@ =~= seq![t@[0]]);
                assert(t@.drop_first() =~= s@.skip(i + 1));
                if n - i >= m {
                    assert(t@.take(m as int) =~= s@.subrange(i as int, i + m));
                }
                assert(res@ + (seq![t@[0]] + replace_text(t@.drop_first(), from@, to@))
                    =~= (res@ + c@) + replace_text(s@.skip(i + 1), from@, to@));
            }
            res.append(c);
            i += 1;
        }
    }
    proof {
        let t = s@.skip(n as int);
        assert(t.len() == 0);
        assert(replace_text(t, from@, to@) == t);
        assert(res@ + t =~= res@);
    }
    res
}


/// The order in which texts are sorted.
pub open spec fn text_order() -> spec_fn(Seq<char>, Seq<char>) -> bool {
    |a: Seq<char>, b: Seq<char>| lex_le(a, b)
}

proof fn lemma_lex_le_reflexive(a: Seq<char>)
    ensures
        lex_le(a, a),
    decreases a.len(),
{
    if a.len() > 0 {
        lemma_lex_le_reflexive(a.drop_first());
    }
}

proof fn lemma_lex_le_antisymmetric(a: Seq<char>, b: Seq<char>)
    requires
        lex_le(a, b),
        lex_le(b, a),
    ensures
        a == b,
    decreases a.len(),
{
    if a.len() == 0 {
        assert(b.len() == 0);
        assert(a =~= b);
    } else {
        assert(b.len() > 0);
        if a[0] != b[0] {
            assert((a[0] as u32) != (b[0] as u32));
        } else {
            lemma_lex_le_antisymmetric(a.drop_first(), b.drop_first());
            assert(a =~= seq![a[0]] + a.drop_first());
            assert(b =~= seq![b[0]] + b.drop_first());
        }
    }
}

proof fn lemma_lex_le_transitive(a: Seq<char>, b: Seq<char>, c: Seq<char>)
    requires
        lex_le(a, b),
        lex_le(b, c),
    ensures
        lex_le(a, c),
    decreases a.len(),
{
    if a.len() > 0 {
        assert(b.len() > 0);
        assert(c.len() > 0);
        if a[0] == b[0] && b[0] == c[0] {
            lemma_lex_le_transitive(a.drop_first(), b.drop_first(), c.drop_first());
        } else {
            assert((a[0] as u32) < (c[0] as u32));
        }
    }
}

proof fn lemma_lex_le_total(a: Seq<char>, b: Seq<char>)
    ensures
        lex_le(a, b) || lex_le(b, a),
    decreases a.len(),
{
    if a.len() > 0 && b.len() > 0 {
        if a[0] == b[0] {
            lemma_lex_le_total(a.drop_first(), b.drop_first());
        } else {
            let x = a[0];
            let y = b[0];
            if (x as u32) == (y as u32) {
                vstd::utf8::char_u32_cast(x, x as u32);
                vstd::utf8::char_u32_cast(y, y as u32);
            }
        }
    }
}

/// Texts are totally ordered.
proof fn lemma_text_order_total()
    ensures
        vstd::relations::total_ordering(text_order()),
{
    let leq = text_order();
    assert forall|x: Seq<char>| #[trigger] leq(x, x) by {
        lemma_lex_le_reflexive(x);
    }
    assert forall|x: Seq<char>, y: Seq<char>| #[trigger] leq(x, y) && #[trigger] leq(y, x) implies x == y by {
        lemma_lex_le_antisymmetric(x, y);
    }
    assert forall|x: Seq<char>, y: Seq<char>, z: Seq<char>| #[trigger] leq(x, y) && #[trigger] leq(y, z) implies leq(x, z) by {
        lemma_lex_le_transitive(x, y, z);
    }
    assert forall|x: Seq<char>, y: Seq<char>| #[trigger] leq(x, y) || #[trigger] leq(y, x) by {
        lemma_lex_le_total(x, y);
    }
}

proof fn lemma_insert_sorted_ensures(x: Seq<char>, s: Seq<Seq<char>>)
    requires
        vstd::relations::sorted_by(s, text_order()),
    ensures
        vstd::relations::sorted_by(insert_sorted(x, s), text_order()),
        insert_sorted(x, s).to_multiset() =~= s.to_multiset().insert(x),
    decreases s.len(),
{
    broadcast use vstd::seq_lib::group_to_multiset_ensures;
    broadcast use vstd::multiset::group_multiset_axioms;

    lemma_text_order_total();
    let leq = text_order();
    if s.len() == 0 {
        assert(seq![x] =~= Seq::<Seq<char>>::empty().push(x));
    } else if lex_le(x, s[0]) {
        let r = seq![x] + s;
        assert forall|i: int, j: int| 0 <= i < j < r.len() implies #[trigger] leq(r[i], r[j]) by {
            if i == 0 {
                if j > 1 {
                    assert(leq(s[0], s[j - 1]));
                    lemma_lex_le_transitive(x, s[0], s[j - 1]);
                }
            } else {
                assert(leq(s[i - 1], s[j - 1]));
            }
        }
        vstd::seq_lib::lemma_multiset_commutative(seq![x], s);
        assert(seq![x] =~= Seq::<Seq<char>>::empty().push(x));
    } else {
        let t = s.drop_first();
        assert forall|i: int, j: int| 0 <= i < j < t.len() implies #[trigger] leq(t[i], t[j]) by {
            assert(leq(s[i + 1], s[j + 1]));
        }
        lemma_insert_sorted_ensures(x, t);
        let rt = insert_sorted(x, t);
        let r = seq![s[0]] + rt;
        lemma_lex_le_total(x, s[0]);
        assert forall|k: int| 0 <= k < rt.len() implies #[trigger] leq(s[0], rt[k]) by {
            assert(rt.to_multiset().count(rt[k]) > 0);
            if rt[k] != x {
                assert(t.to_multiset().count(rt[k]) > 0);
                assert(t.contains(rt[k]));
                let q = choose|q: int| 0 <= q < t.len() && t[q] == rt[k];
                assert(leq(s[0], s[q + 1]));
            }
        }
        assert forall|i: int, j: int| 0 <= i < j < r.len() implies #[trigger] leq(r[i], r[j]) by {
            if i == 0 {
                assert(leq(s[0], rt[j - 1]));
            } else {
                assert(leq(rt[i - 1], rt[j - 1]));
            }
        }
        vstd::seq_lib::lemma_multiset_commutative(seq![s[0]], rt);
        vstd::seq_lib::lemma_multiset_commutative(seq![s[0]], t);
        assert(seq![s[0]] + t =~= s);
        assert(seq![s[0]] =~= Seq::<Seq<char>>::empty().push(s[0]));
    }
}

proof fn lemma_sort_texts_ensures(s: Seq<Seq<char>>)
    ensures
        vstd::relations::sorted_by(sort_texts(s), text_order()),
        sort_texts(s).to_multiset() =~= s.to_multiset(),
    decreases s.len(),
{
    broadcast use vstd::seq_lib::group_to_multiset_ensures;
    broadcast use vstd::multiset::group_multiset_axioms;

    if s.len() > 0 {
        let t = s.drop_first();
        lemma_sort_texts_ensures(t);
        lemma_insert_sorted_ensures(s[0], sort_texts(t));
        vstd::seq_lib::lemma_multiset_commutative(seq![s[0]], t);
        assert(seq![s[0]] + t =~= s);
        assert(seq![s[0]] =~= Seq::<Seq<char>>::empty().push(s[0]));
    }
}

/// Sorting depends only on which texts there are, as often as they occur,
/// not on their order.
pub proof fn lemma_sort_texts_order_free(s1: Seq<Seq<char>>, s2: Seq<Seq<char>>)
    requires
        s1.to_multiset() == s2.to_multiset(),
    ensures
        sort_texts(s1) == sort_texts(s2),
{
    lemma_sort_texts_ensures(s1);
    lemma_sort_texts_ensures(s2);
    lemma_text_order_total();
    vstd::seq_lib::lemma_sorted_unique(sort_texts(s1), sort_texts(s2), text_order());
}

/// Equal-length texts that differ stay different with the same text put
/// before and after them.
pub proof fn lemma_infix_differs(a: Seq<char>, x: Seq<char>, y: Seq<char>, b: Seq<char>)
    requires
        x.len() == y.len(),
        x != y,
    ensures
        a + x + b != a + y + b,
        (a + x + b).len() == (a + y + b).len(),
{
    if a + x + b == a + y + b {
        assert((a + x + b).subrange(a.len() as int, (a.len() + x.len()) as int) =~= x);
        assert((a + y + b).subrange(a.len() as int, (a.len() + y.len()) as int) =~= y);
    }
}

/// Joining parts that differ in one place only, there by equal-length
/// texts that differ, gives texts of equal length that differ.
pub proof fn lemma_join_differs(t: Seq<Seq<char>>, u: Seq<Seq<char>>, sep: Seq<char>, j: int)
    requires
        t.len() == u.len(),
        0 <= j < t.len(),
        forall|k: int| 0 <= k < t.len() && k != j ==> t[k] == u[k],
        t[j].len() == u[j].len(),
        t[j] != u[j],
    ensures
        join_spec(t, sep) != join_spec(u, sep),
        join_spec(t, sep).len() == join_spec(u, sep).len(),
    decreases t.len(),
{
    let e: Seq<char> = Seq::empty();
    if t.len() == 1 {
        assert(j == 0);
    } else {
        let n = t.len() - 1;
        if j == n {
            assert(t.drop_last() =~= u.drop_last());
            lemma_infix_differs(join_spec(t.drop_last(), sep) + sep, t.last(), u.last(), e);
            assert(join_spec(t.drop_last(), sep) + sep + t.last() + e =~= join_spec(t, sep));
            assert(join_spec(u.drop_last(), sep) + sep + u.last() + e =~= join_spec(u, sep));
        } else {
            lemma_join_differs(t.drop_last(), u.drop_last(), sep, j);
            assert(t.last() == t[n]);
            assert(u.last() == u[n]);
            lemma_infix_differs(e, join_spec(t.drop_last(), sep), join_spec(u.drop_last(), sep), sep + t.last());
            assert(e + join_spec(t.drop_last(), sep) + (sep + t.last()) =~= join_spec(t, sep));
            assert(e + join_spec(u.drop_last(), sep) + (sep + u.last()) =~= join_spec(u, sep));
        }
    }
}

/// Joining the first `m` parts gives a prefix of joining them all.
pub proof fn lemma_join_prefix(t: Seq<Seq<char>>, sep: Seq<char>, m: int)
    requires
        1 <= m <= t.len(),
    ensures
        join_spec(t.take(m), sep).len() <= join_spec(t, sep).len(),
        join_spec(t, sep).take(join_spec(t.take(m), sep).len() as int) == join_spec(t.take(m), sep),
    decreases t.len(),
{
    if m == t.len() {
        assert(t.take(m) =~= t);
        assert(join_spec(t, sep).take(join_spec(t, sep).len() as int) =~= join_spec(t, sep));
    } else {
        let d = t.drop_last();
        lemma_join_prefix(d, sep, m);
        assert(d.take(m) =~= t.take(m));
        let a = join_spec(d, sep);
        let pre = join_spec(t.take(m), sep);
        assert(join_spec(t, sep) == a + sep + t.last());
        assert((a + sep + t.last()).take(pre.len() as int) =~= a.take(pre.len() as int));
    }
}

/// Where the part `j` starts in the joined text.
pub open spec fn join_offset(t: Seq<Seq<char>>, sep: Seq<char>, j: int) -> int {
    if j == 0 {
        0
    } else {
        (join_spec(t.take(j), sep).len() + sep.len()) as int
    }
}

/// Each character of part `j` stands in the joined text at the part's
/// offset.
pub proof fn lemma_join_char(t: Seq<Seq<char>>, sep: Seq<char>, j: int, x: int)
    requires
        0 <= j < t.len(),
        0 <= x < t[j].len(),
    ensures
        0 <= join_offset(t, sep, j) + x < join_spec(t, sep).len(),
        join_spec(t, sep)[join_offset(t, sep, j) + x] == t[j][x],
{
    lemma_join_prefix(t, sep, j + 1);
    let pre = join_spec(t.take(j + 1), sep);
    if j == 0 {
        assert(pre == t.take(1)[0]);
        assert(t.take(1)[0] == t[0]);
    } else {
        assert(t.take(j + 1).drop_last() =~= t.take(j));
        assert(t.take(j + 1).last() == t[j]);
        assert(pre == join_spec(t.take(j), sep) + sep + t[j]);
    }
    assert(join_spec(t, sep).take(pre.len() as int)[join_offset(t, sep, j) + x] == pre[join_offset(t, sep, j) + x]);
}

/// Joined without a separator, a first part is followed by the join of the
/// rest.
pub proof fn lemma_join_empty_sep_first(e: Seq<char>, x: Seq<Seq<char>>)
    ensures
        join_spec(seq![e] + x, Seq::empty()) == e + join_spec(x, Seq::empty()),
    decreases x.len(),
{
    let s = seq![e] + x;
    let sep: Seq<char> = Seq::empty();
    if x.len() == 0 {
        assert(s =~= seq![e]);
        assert(e + join_spec(x, sep) =~= e);
    } else {
        lemma_join_empty_sep_first(e, x.drop_last());
        assert(s.drop_last() =~= seq![e] + x.drop_last());
        assert(s.last() == x.last());
        if x.len() == 1 {
            assert(x.drop_last() =~= Seq::<Seq<char>>::empty());
            assert(join_spec(x, sep) == x[0]);
            assert(join_spec(s, sep) == join_spec(s.drop_last(), sep) + sep + s.last());
            assert(join_spec(s.drop_last(), sep) == e);
            assert(join_spec(s, sep) =~= e + x[0]);
        } else {
            assert(join_spec(x, sep) == join_spec(x.drop_last(), sep) + sep + x.last());
            assert(join_spec(s, sep) =~= e + join_spec(x, sep));
        }
    }
}

/// Joined without a separator, empty parts add nothing.
pub proof fn lemma_join_empty_parts(x: Seq<Seq<char>>)
    requires
        forall|k: int| 0 <= k < x.len() ==> (#[trigger] x[k]).len() == 0,
    ensures
        join_spec(x, Seq::empty()) == Seq::<char>::empty(),
    decreases x.len(),
{
    if x.len() > 0 {
        assert forall|k: int| 0 <= k < x.drop_last().len() implies (#[trigger] x.drop_last()[k]).len() == 0 by {
            assert(x.drop_last()[k] == x[k]);
        }
        lemma_join_empty_parts(x.drop_last());
        assert(x.last().len() == 0);
        if x.len() > 1 {
            assert(join_spec(x, Seq::empty()) =~= Seq::<char>::empty());
        } else {
            assert(x[0].len() == 0);
            assert(x[0] =~= Seq::<char>::empty());
        }
    }
}

} // verus!
