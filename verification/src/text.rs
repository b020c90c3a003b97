//! Character-level helpers for topic strings.
//!
//! Topics are sequences of tokens separated by `.`; the spec function
//! [`split_dots`] states how a topic is cut into tokens, exactly as
//! `str::split('.')` does (an empty topic is one empty token, and a
//! trailing `.` yields a trailing empty token).
use vstd::prelude::*;

verus! {

/// The tokens of `s`, cut at every `.`.
pub open spec fn split_dots(s: Seq<char>) -> Seq<Seq<char>>
    decreases s.len(),
{
    if s.len() == 0 {
        seq![Seq::<char>::empty()]
    } else {
        let init = split_dots(s.drop_last());
        if s.last() == '.' {
            init.push(Seq::<char>::empty())
        } else {
            init.update(init.len() - 1, init.last().push(s.last()))
        }
    }
}

/// Whether `s` holds two adjacent `.` characters.
pub open spec fn has_double_dot(s: Seq<char>) -> bool {
    exists|i: int| 0 <= i && i + 1 < s.len() && #[trigger] s[i] == '.' && s[i + 1] == '.'
}

/// Splitting always yields at least one token.
pub proof fn lemma_split_dots_nonempty(s: Seq<char>)
    ensures
        split_dots(s).len() >= 1,
    decreases s.len(),
{
    if s.len() > 0 {
        lemma_split_dots_nonempty(s.drop_last());
    }
}

/// The number of tokens is one more than the number of separators.
pub proof fn lemma_split_dots_count(s: Seq<char>)
    ensures
        split_dots(s).len() == 1 + s.filter(|c: char| c == '.').len(),
    decreases s.len(),
{
    reveal_with_fuel(Seq::filter, 1);
    if s.len() > 0 {
        lemma_split_dots_count(s.drop_last());
        lemma_split_dots_nonempty(s.drop_last());
    }
}

/// No token produced by splitting contains a separator.
pub proof fn lemma_split_dots_tokens_dot_free(s: Seq<char>)
    ensures
        forall|k: int| 0 <= k < split_dots(s).len() ==> !(#[trigger] split_dots(s)[k]).contains('.'),
    decreases s.len(),
{
    if s.len() > 0 {
        lemma_split_dots_tokens_dot_free(s.drop_last());
        lemma_split_dots_nonempty(s.drop_last());
        let init = split_dots(s.drop_last());
        if s.last() != '.' {
            let last = init.last();
            assert(!last.contains('.'));
            assert forall|j: int| 0 <= j < last.push(s.last()).len() implies last.push(s.last())[j]
                != '.' by {
                if j < last.len() {
                    assert(last.push(s.last())[j] == last[j]);
                }
            }
        }
    }
}

/// Splitting `s + "." + t` gives the tokens of `s` followed by the tokens of `t`.
pub proof fn lemma_split_dots_concat(s: Seq<char>, t: Seq<char>)
    ensures
        split_dots(s + seq!['.'] + t) == split_dots(s) + split_dots(t),
    decreases t.len(),
{
    lemma_split_dots_nonempty(s);
    lemma_split_dots_nonempty(t);
    if t.len() == 0 {
        assert((s + seq!['.'] + t).drop_last() =~= s);
        assert(split_dots(s) + split_dots(t) =~= split_dots(s).push(Seq::<char>::empty()));
    } else {
        let u = s + seq!['.'] + t;
        assert(u.drop_last() =~= s + seq!['.'] + t.drop_last());
        lemma_split_dots_concat(s, t.drop_last());
        lemma_split_dots_nonempty(t.drop_last());
        let a = split_dots(s);
        let b = split_dots(t.drop_last());
        assert(u.last() == t.last());
        if t.last() == '.' {
            assert((a + b).push(Seq::<char>::empty()) =~= a + b.push(Seq::<char>::empty()));
        } else {
            assert((a + b).update((a + b).len() - 1, (a + b).last().push(t.last())) =~= a + b.update(
                b.len() - 1,
                b.last().push(t.last()),
            ));
        }
    }
}

/// A string without separators is a single token.
pub proof fn lemma_split_dots_no_dot(s: Seq<char>)
    requires
        !s.contains('.'),
    ensures
        split_dots(s) == seq![s],
    decreases s.len(),
{
    if s.len() == 0 {
        assert(s =~= Seq::<char>::empty());
    } else {
        assert(!s.drop_last().contains('.')) by {
            if s.drop_last().contains('.') {
                let i = choose|i: int| 0 <= i < s.drop_last().len() && s.drop_last()[i] == '.';
                assert(s[i] == '.');
            }
        }
        lemma_split_dots_no_dot(s.drop_last());
        assert(s.last() != '.') by {
            assert(s[s.len() - 1] == s.last());
        }
        assert(s.drop_last().push(s.last()) =~= s);
        assert(seq![s.drop_last()].update(0, s.drop_last().push(s.last())) =~= seq![s]);
    }
}

/// The tokens joined back together with `.` between them.
pub open spec fn join_dots(parts: Seq<Seq<char>>) -> Seq<char>
    decreases parts.len(),
{
    if parts.len() == 0 {
        Seq::empty()
    } else if parts.len() == 1 {
        parts[0]
    } else {
        join_dots(parts.drop_last()) + seq!['.'] + parts.last()
    }
}

/// Joining the tokens of `s` gives `s` back.
pub proof fn lemma_join_split(s: Seq<char>)
    ensures
        join_dots(split_dots(s)) == s,
    decreases s.len(),
{
    if s.len() == 0 {
        assert(join_dots(split_dots(s)) =~= s);
    } else {
        let init = split_dots(s.drop_last());
        lemma_join_split(s.drop_last());
        lemma_split_dots_nonempty(s.drop_last());
        let parts = split_dots(s);
        if s.last() == '.' {
            assert(parts.drop_last() =~= init);
            assert(join_dots(parts) =~= s);
        } else {
            let x = init.last().push(s.last());
            if init.len() == 1 {
                assert(init[0] == join_dots(init));
                assert(join_dots(parts) =~= s);
            } else {
                assert(parts.drop_last() =~= init.drop_last());
                assert(parts.last() == x);
                assert(join_dots(parts) =~= (join_dots(init.drop_last()) + seq!['.']
                    + init.last()).push(s.last()));
                assert(join_dots(parts) =~= s);
            }
        }
    }
}

/// Texts with the same tokens are the same text.
pub proof fn lemma_split_dots_injective(a: Seq<char>, b: Seq<char>)
    requires
        split_dots(a) == split_dots(b),
    ensures
        a == b,
{
    lemma_join_split(a);
    lemma_join_split(b);
}

/// A character of a joined text that is not a `.` comes from one of the tokens.
pub proof fn lemma_join_chars(parts: Seq<Seq<char>>, i: int)
    requires
        0 <= i < join_dots(parts).len(),
        join_dots(parts)[i] != '.',
    ensures
        exists|k: int, j: int|
            0 <= k < parts.len() && 0 <= j < parts[k].len() && #[trigger] parts[k][j]
                == join_dots(parts)[i],
    decreases parts.len(),
{
    if parts.len() == 1 {
        assert(parts[0][i] == join_dots(parts)[i]);
    } else if parts.len() > 1 {
        let front = join_dots(parts.drop_last());
        let last = parts.last();
        assert(join_dots(parts) == front + seq!['.'] + last);
        if i < front.len() {
            assert(join_dots(parts)[i] == front[i]);
            lemma_join_chars(parts.drop_last(), i);
            let (k, j) = choose|k: int, j: int|
                0 <= k < parts.drop_last().len() && 0 <= j < parts.drop_last()[k].len()
                    && #[trigger] parts.drop_last()[k][j] == front[i];
            assert(parts[k][j] == parts.drop_last()[k][j]);
        } else if i == front.len() {
            assert(join_dots(parts)[i] == '.');
        } else {
            let j = i - front.len() - 1;
            assert(join_dots(parts)[i] == last[j]);
            assert(parts[parts.len() - 1][j] == join_dots(parts)[i]);
        }
    }
}

/// Every character of every token of `s` is a character of `s`.
pub proof fn lemma_split_dots_chars(s: Seq<char>)
    ensures
        forall|k: int, j: int|
            0 <= k < split_dots(s).len() && 0 <= j < split_dots(s)[k].len() ==> s.contains(
                #[trigger] split_dots(s)[k][j],
            ),
    decreases s.len(),
{
    if s.len() > 0 {
        let init = split_dots(s.drop_last());
        lemma_split_dots_chars(s.drop_last());
        lemma_split_dots_nonempty(s.drop_last());
        assert forall|k: int, j: int|
            0 <= k < split_dots(s).len() && 0 <= j < split_dots(s)[k].len() implies s.contains(
                #[trigger] split_dots(s)[k][j],
            ) by {
            assert(s[s.len() - 1] == s.last());
            if k < init.len() && (k < init.len() - 1 || j < init[k].len()) {
                let c = init[k][j];
                assert(split_dots(s)[k][j] == c);
                assert(s.drop_last().contains(c));
                let w = choose|w: int| 0 <= w < s.drop_last().len() && s.drop_last()[w] == c;
                assert(s[w] == c);
            } else {
                assert(split_dots(s)[k][j] == s.last());
            }
        }
    }
}

/// Appends `c` to `s` (`String::push`).
#[verifier::external_body]
pub(crate) fn push_char(s: &mut String, c: char)
    ensures
        final(s)@ == old(s)@.push(c),
{
    s.push(c);
}

/// The characters of `s`, in order.
pub fn str_chars(s: &str) -> (v: Vec<char>)
    ensures
        v@ == s@,
{
    broadcast use vstd::string::group_string_axioms;
    let mut v: Vec<char> = Vec::new();
    let it = s.chars();
    for c in iter: it
        invariant
            iter.seq() == s@,
            v@ == s@.take(iter.index() as int),
    {
        assert(iter.seq().take(iter.index() + 1) =~= v@.push(c));
        v.push(c);
    }
    assert(s@.take(s@.len() as int) =~= s@);
    v
}

/// A `String` holding the characters of `v`.
pub fn chars_to_string(v: &Vec<char>) -> (s: String)
    ensures
        s@ == v@,
{
    let mut s = String::new();
    let mut i: usize = 0;
    while i < v.len()
        invariant
            i <= v.len(),
            s@ == v@.take(i as int),
        decreases v.len() - i,
    {
        push_char(&mut s, v[i]);
        assert(v@.take(i as int).push(v@[i as int]) =~= v@.take(i + 1));
        i = i + 1;
    }
    assert(v@.take(v.len() as int) =~= v@);
    s
}

/// A new `String` holding the characters of `a` followed by those of `b`.
pub fn concat_str(a: &str, b: &str) -> (s: String)
    ensures
        s@ == a@ + b@,
{
    let mut s = a.to_owned();
    let bc = str_chars(b);
    let mut i: usize = 0;
    while i < bc.len()
        invariant
            i <= bc.len(),
            bc@ == b@,
            s@ == a@ + b@.take(i as int),
        decreases bc.len() - i,
    {
        push_char(&mut s, bc[i]);
        assert(a@ + b@.take(i + 1) =~= (a@ + b@.take(i as int)).push(b@[i as int]));
        i = i + 1;
    }
    assert(b@.take(b@.len() as int) =~= b@);
    s
}

/// Whether `a` and `b` are the same text.
pub fn str_eq(a: &str, b: &str) -> (r: bool)
    ensures
        r == (a@ == b@),
{
    let ac = str_chars(a);
    let bc = str_chars(b);
    chars_eq(&ac, &bc)
}

/// Whether `v` holds the character `c`.
pub fn has_char(v: &Vec<char>, c: char) -> (r: bool)
    ensures
        r == v@.contains(c),
{
    let mut i: usize = 0;
    while i < v.len()
        invariant
            i <= v.len(),
            forall|j: int| 0 <= j < i ==> v@[j] != c,
        decreases v.len() - i,
    {
        if v[i] == c {
            assert(v@[i as int] == c);
            return true;
        }
        i = i + 1;
    }
    false
}

/// Whether `v` holds two adjacent `.` characters.
pub fn has_double_dot_exec(v: &Vec<char>) -> (r: bool)
    ensures
        r == has_double_dot(v@),
{
    let mut i: usize = 0;
    while i < v.len()
        invariant
            forall|j: int| 0 <= j < i && j + 1 < v.len() ==> !(#[trigger] v@[j] == '.' && v@[j + 1] == '.'),
        decreases v.len() - i,
    {
        if i + 1 < v.len() && v[i] == '.' && v[i + 1] == '.' {
            return true;
        }
        i = i + 1;
    }
    false
}

/// Whether `a` and `b` hold the same characters.
pub fn chars_eq(a: &Vec<char>, b: &Vec<char>) -> (r: bool)
    ensures
        r == (a@ == b@),
{
    if a.len() != b.len() {
        return false;
    }
    let mut i: usize = 0;
    while i < a.len()
        invariant
            a.len() == b.len(),
            i <= a.len(),
            forall|j: int| 0 <= j < i ==> a@[j] == b@[j],
        decreases a.len() - i,
    {
        if a[i] != b[i] {
            return false;
        }
        i = i + 1;
    }
    assert(a@ =~= b@);
    true
}

/// Lexicographic order on texts, by character code (for UTF-8 text this is
/// also the order of the encoded bytes): `a` sorts no later than `b`.
pub open spec fn chars_le(a: Seq<char>, b: Seq<char>) -> bool
    decreases a.len(),
{
    if a.len() == 0 {
        true
    } else if b.len() == 0 {
        false
    } else if (a[0] as int) < (b[0] as int) {
        true
    } else if a[0] == b[0] {
        chars_le(a.drop_first(), b.drop_first())
    } else {
        false
    }
}

/// The lexicographic order is total.
pub proof fn lemma_chars_le_total(a: Seq<char>, b: Seq<char>)
    ensures
        chars_le(a, b) || chars_le(b, a),
    decreases a.len(),
{
    if a.len() > 0 && b.len() > 0 && a[0] == b[0] {
        lemma_chars_le_total(a.drop_first(), b.drop_first());
    }
}

/// The lexicographic order is antisymmetric.
pub proof fn lemma_chars_le_antisymmetric(a: Seq<char>, b: Seq<char>)
    requires
        chars_le(a, b),
        chars_le(b, a),
    ensures
        a == b,
    decreases a.len(),
{
    if a.len() > 0 {
        lemma_chars_le_antisymmetric(a.drop_first(), b.drop_first());
        assert(a =~= seq![a[0]] + a.drop_first());
        assert(b =~= seq![b[0]] + b.drop_first());
    } else {
        assert(b.len() == 0);
        assert(a =~= b);
    }
}

/// The lexicographic order is transitive.
pub proof fn lemma_chars_le_transitive(a: Seq<char>, b: Seq<char>, c: Seq<char>)
    requires
        chars_le(a, b),
        chars_le(b, c),
    ensures
        chars_le(a, c),
    decreases a.len(),
{
    if a.len() > 0 && b.len() > 0 && c.len() > 0 && a[0] == b[0] && b[0] == c[0] {
        lemma_chars_le_transitive(a.drop_first(), b.drop_first(), c.drop_first());
    }
}

/// A common prefix does not change the order.
pub proof fn lemma_chars_le_common_prefix(p: Seq<char>, x: Seq<char>, y: Seq<char>)
    ensures
        chars_le(p + x, p + y) == chars_le(x, y),
    decreases p.len(),
{
    if p.len() > 0 {
        lemma_chars_le_common_prefix(p.drop_first(), x, y);
        assert((p + x).drop_first() =~= p.drop_first() + x);
        assert((p + y).drop_first() =~= p.drop_first() + y);
        assert((p + x)[0] == p[0]);
        assert((p + y)[0] == p[0]);
    } else {
        assert(p + x =~= x);
        assert(p + y =~= y);
    }
}

/// Texts of equal length extended by one character compare by the texts,
/// and by the characters when the texts are equal.
pub proof fn lemma_chars_le_push(x: Seq<char>, y: Seq<char>, c: char, d: char)
    requires
        x.len() == y.len(),
    ensures
        chars_le(x.push(c), y.push(d)) == if x == y {
            (c as int) <= (d as int)
        } else {
            chars_le(x, y)
        },
    decreases x.len(),
{
    if x.len() > 0 {
        lemma_chars_le_push(x.drop_first(), y.drop_first(), c, d);
        assert(x.push(c).drop_first() =~= x.drop_first().push(c));
        assert(y.push(d).drop_first() =~= y.drop_first().push(d));
        assert(x.push(c)[0] == x[0]);
        assert(y.push(d)[0] == y[0]);
        if x.drop_first() == y.drop_first() && x[0] == y[0] {
            assert forall|i: int| 0 <= i < x.len() implies x[i] == y[i] by {
                if i > 0 {
                    assert(x[i] == x.drop_first()[i - 1]);
                    assert(y[i] == y.drop_first()[i - 1]);
                }
            }
            assert(x =~= y);
        }
        if x == y {
            assert(x.drop_first() == y.drop_first());
        }
    } else {
        assert(x =~= y);
        assert(x.push(c)[0] == c);
        assert(y.push(d)[0] == d);
        assert(x.push(c).drop_first() =~= Seq::<char>::empty());
        assert(y.push(d).drop_first() =~= Seq::<char>::empty());
        assert(chars_le(Seq::<char>::empty(), Seq::<char>::empty()));
    }
}

/// Whether `a` sorts no later than `b`, lexicographically by character code.
pub fn chars_le_exec(a: &Vec<char>, b: &Vec<char>) -> (r: bool)
    ensures
        r == chars_le(a@, b@),
{
    let mut i: usize = 0;
    assert(a@.skip(0) =~= a@);
    assert(b@.skip(0) =~= b@);
    while i < a.len() && i < b.len()
        invariant
            i <= a.len(),
            i <= b.len(),
            chars_le(a@, b@) == chars_le(a@.skip(i as int), b@.skip(i as int)),
        decreases a.len() - i,
    {
        assert(a@.skip(i as int)[0] == a@[i as int]);
        assert(b@.skip(i as int)[0] == b@[i as int]);
        assert(a@.skip(i as int).drop_first() =~= a@.skip(i + 1));
        assert(b@.skip(i as int).drop_first() =~= b@.skip(i + 1));
        let x = a[i];
        let y = b[i];
        if x < y {
            return true;
        }
        if x != y {
            return false;
        }
        i = i + 1;
    }
    i == a.len()
}

/// Whether `s` begins with `prefix`.
pub fn starts_with(s: &str, prefix: &str) -> (r: bool)
    ensures
        r == (prefix@.len() <= s@.len() && s@.take(prefix@.len() as int) == prefix@),
{
    let sc = str_chars(s);
    let pc = str_chars(prefix);
    if pc.len() > sc.len() {
        return false;
    }
    let mut i: usize = 0;
    while i < pc.len()
        invariant
            sc@ == s@,
            pc@ == prefix@,
            pc.len() <= sc.len(),
            i <= pc.len(),
            forall|j: int| 0 <= j < i ==> sc@[j] == pc@[j],
        decreases pc.len() - i,
    {
        if sc[i] != pc[i] {
            assert(s@.take(prefix@.len() as int)[i as int] != prefix@[i as int]);
            return false;
        }
        i = i + 1;
    }
    assert(s@.take(prefix@.len() as int) =~= prefix@);
    true
}

/// The deep view of a vector of characters is its view.
pub proof fn lemma_char_vec_deep_view(v: Vec<char>)
    ensures
        v.deep_view() == v@,
{
    assert(v.deep_view() =~= v@);
}

/// Pushing onto a vector of character vectors pushes the pushed view.
proof fn lemma_deep_view_push(before: Vec<Vec<char>>, after: Vec<Vec<char>>, x: Vec<char>)
    requires
        after@ == before@.push(x),
    ensures
        after.deep_view() == before.deep_view().push(x@),
{
    lemma_char_vec_deep_view(x);
    assert(after.deep_view() =~= before.deep_view().push(x@));
}

/// The tokens of `s`, cut at every `.` (as `str::split('.')` does).
pub fn split_on_dots(s: &Vec<char>) -> (parts: Vec<Vec<char>>)
    ensures
        parts.deep_view() == split_dots(s@),
        parts.len() >= 1,
{
    let mut parts: Vec<Vec<char>> = Vec::new();
    let mut cur: Vec<char> = Vec::new();
    let mut i: usize = 0;
    assert(s@.take(0) =~= Seq::<char>::empty());
    while i < s.len()
        invariant
            i <= s.len(),
            parts.deep_view().push(cur@) == split_dots(s@.take(i as int)),
        decreases s.len() - i,
    {
        let c = s[i];
        let ghost prev = s@.take(i as int);
        assert(s@.take(i + 1).drop_last() =~= prev);
        assert(s@.take(i + 1).last() == c);
        if c == '.' {
            let ghost old_parts = parts;
            let done = cur;
            parts.push(done);
            cur = Vec::new();
            proof {
                lemma_deep_view_push(old_parts, parts, done);
            }
            assert(parts.deep_view().push(cur@) =~= split_dots(prev).push(Seq::<char>::empty()));
        } else {
            let ghost old_cur = cur@;
            cur.push(c);
            assert(parts.deep_view().push(cur@) =~= split_dots(prev).update(
                split_dots(prev).len() - 1,
                split_dots(prev).last().push(c),
            ));
        }
        i = i + 1;
    }
    assert(s@.take(s.len() as int) =~= s@);
    let ghost before = parts;
    let ghost last = cur;
    parts.push(cur);
    proof {
        lemma_deep_view_push(before, parts, last);
    }
    parts
}

} // verus!
