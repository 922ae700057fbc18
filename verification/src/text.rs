//! Text helpers over the characters of a string: finding a character, trimming
//! whitespace, taking pieces out.
use vstd::prelude::*;
use vstd::string::StrSliceExecFns;
use vstd::utf8::encode_utf8;

verus! {

/// Whether `c` has the Unicode `White_Space` property: tab, line feed, vertical tab, form
/// feed, carriage return, space, U+0085, U+00A0, U+1680, U+2000 to U+200A, U+2028, U+2029,
/// U+202F, U+205F and U+3000.
pub open spec fn char_is_whitespace(c: char) -> bool {
    let u = c as u32;
    ||| 0x09 <= u <= 0x0d
    ||| u == 0x20
    ||| u == 0x85
    ||| u == 0xa0
    ||| u == 0x1680
    ||| 0x2000 <= u <= 0x200a
    ||| u == 0x2028
    ||| u == 0x2029
    ||| u == 0x202f
    ||| u == 0x205f
    ||| u == 0x3000
}

/// Whether `c` has the Unicode `White_Space` property (what `char::is_whitespace` tells).
fn is_whitespace(c: char) -> (r: bool)
    ensures
        r == char_is_whitespace(c),
{
    let u = c as u32;
    (0x09 <= u && u <= 0x0d) || u == 0x20 || u == 0x85 || u == 0xa0 || u == 0x1680 || (0x2000
        <= u && u <= 0x200a) || u == 0x2028 || u == 0x2029 || u == 0x202f || u == 0x205f || u
        == 0x3000
}

/// The characters of `s`, in order.
pub fn chars_of(s: &str) -> (r: Vec<char>)
    ensures
        r@ == s@,
{
    let mut v: Vec<char> = Vec::new();
    for c in it: s.chars()
        invariant
            v@ == it.seq().take(it.index() as int),
    {
        v.push(c);
    }
    v
}

/// Whether `s` begins with `p`.
pub open spec fn starts_with(s: Seq<char>, p: Seq<char>) -> bool {
    p.len() <= s.len() && s.take(p.len() as int) == p
}

/// The index of the first `c` in `s` at or after `i`.
pub open spec fn index_of_from(s: Seq<char>, c: char, i: nat) -> Option<nat>
    decreases s.len() - i,
{
    if i >= s.len() {
        None
    } else if s[i as int] == c {
        Some(i)
    } else {
        index_of_from(s, c, i + 1)
    }
}

/// The index of the first `c` in `s`.
pub open spec fn index_of(s: Seq<char>, c: char) -> Option<nat> {
    index_of_from(s, c, 0)
}

/// How many whitespace characters `s` begins with.
pub open spec fn leading_whitespace(s: Seq<char>) -> nat
    decreases s.len(),
{
    if s.len() > 0 && char_is_whitespace(s[0]) {
        1 + leading_whitespace(s.drop_first())
    } else {
        0
    }
}

/// How many whitespace characters `s` ends with.
pub open spec fn trailing_whitespace(s: Seq<char>) -> nat
    decreases s.len(),
{
    if s.len() > 0 && char_is_whitespace(s.last()) {
        1 + trailing_whitespace(s.drop_last())
    } else {
        0
    }
}

/// `s` without the whitespace it begins and ends with (what `str::trim` gives).
pub open spec fn trim(s: Seq<char>) -> Seq<char> {
    let t = s.skip(leading_whitespace(s) as int);
    t.take(t.len() - trailing_whitespace(t))
}

/// What `index_of_from` finds is a `c` with none before it from `i` on.
pub proof fn lemma_index_of_from(s: Seq<char>, c: char, i: nat)
    ensures
        index_of_from(s, c, i) matches Some(j) ==> i <= j < s.len() && s[j as int] == c
            && forall|k: int| i <= k < j ==> s[k] != c,
        index_of_from(s, c, i) is None ==> forall|k: int| i <= k < s.len() ==> s[k] != c,
    decreases s.len() - i,
{
    if i < s.len() && s[i as int] != c {
        lemma_index_of_from(s, c, i + 1);
    }
}

/// The first `c` in `v[from..to]`, as an index into `v`.
pub fn find_char(v: &Vec<char>, from: usize, to: usize, c: char) -> (r: Option<usize>)
    requires
        from <= to <= v@.len(),
    ensures
        match index_of(v@.subrange(from as int, to as int), c) {
            Some(j) => r matches Some(i) && i == from + j,
            None => r is None,
        },
        r matches Some(i) ==> from <= i < to && v@[i as int] == c,
{
    let ghost s = v@.subrange(from as int, to as int);
    let mut i = from;
    while i < to
        invariant
            from <= i <= to <= v@.len(),
            s == v@.subrange(from as int, to as int),
            forall|k: int| 0 <= k < i - from ==> s[k] != c,
        decreases to - i,
    {
        if v[i] == c {
            proof {
                lemma_index_of_from(s, c, 0);
                if index_of(s, c) != Some((i - from) as nat) {
                    let j = index_of(s, c);
                    assert(s[i - from] == c);
                }
            }
            return Some(i);
        }
        i = i + 1;
    }
    proof {
        lemma_index_of_from(s, c, 0);
        if index_of(s, c) is Some {
            let j = index_of(s, c)->0;
            assert(s[j as int] == c);
        }
    }
    None
}

/// `leading_whitespace` counts whitespace characters and stops at one that is not.
pub proof fn lemma_leading_whitespace(s: Seq<char>)
    ensures
        leading_whitespace(s) <= s.len(),
        forall|k: int| 0 <= k < leading_whitespace(s) ==> char_is_whitespace(#[trigger] s[k]),
        leading_whitespace(s) < s.len() ==> !char_is_whitespace(s[leading_whitespace(s) as int]),
    decreases s.len(),
{
    if s.len() > 0 && char_is_whitespace(s[0]) {
        lemma_leading_whitespace(s.drop_first());
        assert forall|k: int| 0 <= k < leading_whitespace(s) implies char_is_whitespace(
            #[trigger] s[k],
        ) by {
            if k > 0 {
                assert(s[k] == s.drop_first()[k - 1]);
            }
        }
    }
}

/// `trailing_whitespace` counts whitespace characters from the end and stops at one that is
/// not.
pub proof fn lemma_trailing_whitespace(s: Seq<char>)
    ensures
        trailing_whitespace(s) <= s.len(),
        forall|k: int|
            s.len() - trailing_whitespace(s) <= k < s.len() ==> char_is_whitespace(#[trigger] s[k]),
        trailing_whitespace(s) < s.len() ==> !char_is_whitespace(
            s[s.len() - 1 - trailing_whitespace(s)],
        ),
    decreases s.len(),
{
    if s.len() > 0 && char_is_whitespace(s.last()) {
        lemma_trailing_whitespace(s.drop_last());
        assert forall|k: int|
            s.len() - trailing_whitespace(s) <= k < s.len() implies char_is_whitespace(
            #[trigger] s[k],
        ) by {
            if k < s.len() - 1 {
                assert(s[k] == s.drop_last()[k]);
            }
        }
    }
}

/// A count of leading whitespace characters that ends at a character that is not one is
/// `leading_whitespace`.
proof fn lemma_leading_whitespace_unique(s: Seq<char>, n: nat)
    requires
        n <= s.len(),
        forall|k: int| 0 <= k < n ==> char_is_whitespace(#[trigger] s[k]),
        n < s.len() ==> !char_is_whitespace(s[n as int]),
    ensures
        leading_whitespace(s) == n,
    decreases s.len(),
{
    if n > 0 {
        assert(char_is_whitespace(s[0]));
        let t = s.drop_first();
        assert forall|k: int| 0 <= k < (n - 1) as nat implies char_is_whitespace(#[trigger] t[k]) by {
            assert(t[k] == s[k + 1]);
        }
        if n - 1 < t.len() {
            assert(t[n - 1] == s[n as int]);
        }
        lemma_leading_whitespace_unique(t, (n - 1) as nat);
    }
}

/// A count of trailing whitespace characters that ends at a character that is not one is
/// `trailing_whitespace`.
proof fn lemma_trailing_whitespace_unique(s: Seq<char>, n: nat)
    requires
        n <= s.len(),
        forall|k: int| s.len() - n <= k < s.len() ==> char_is_whitespace(#[trigger] s[k]),
        n < s.len() ==> !char_is_whitespace(s[s.len() - 1 - n]),
    ensures
        trailing_whitespace(s) == n,
    decreases s.len(),
{
    if n > 0 {
        assert(char_is_whitespace(s[s.len() - 1]));
        let t = s.drop_last();
        assert forall|k: int| t.len() - (n - 1) <= k < t.len() implies char_is_whitespace(
            #[trigger] t[k],
        ) by {
            assert(t[k] == s[k]);
        }
        if n - 1 < t.len() {
            assert(t[t.len() - 1 - (n - 1)] == s[s.len() - 1 - n]);
        }
        lemma_trailing_whitespace_unique(t, (n - 1) as nat);
    }
}

/// The bounds of `trim(v[from..to])` inside `v`.
pub fn trim_range(v: &Vec<char>, from: usize, to: usize) -> (r: (usize, usize))
    requires
        from <= to <= v@.len(),
    ensures
        from <= r.0 <= r.1 <= to,
        v@.subrange(r.0 as int, r.1 as int) == trim(v@.subrange(from as int, to as int)),
{
    let ghost s = v@.subrange(from as int, to as int);
    let mut a = from;
    while a < to && is_whitespace(v[a])
        invariant
            from <= a <= to <= v@.len(),
            s == v@.subrange(from as int, to as int),
            forall|k: int| 0 <= k < a - from ==> char_is_whitespace(#[trigger] s[k]),
        decreases to - a,
    {
        a = a + 1;
    }
    proof {
        if a < to {
            assert(s[a - from] == v@[a as int]);
        }
        lemma_leading_whitespace_unique(s, (a - from) as nat);
    }
    let ghost t = v@.subrange(a as int, to as int);
    assert(t =~= s.skip(leading_whitespace(s) as int));
    let mut b = to;
    while b > a && is_whitespace(v[b - 1])
        invariant
            from <= a <= b <= to <= v@.len(),
            t == v@.subrange(a as int, to as int),
            forall|k: int| b - a <= k < t.len() ==> char_is_whitespace(#[trigger] t[k]),
        decreases b - a,
    {
        b = b - 1;
    }
    proof {
        if b > a {
            assert(t[b - 1 - a] == v@[b - 1]);
        }
        lemma_trailing_whitespace_unique(t, (to - b) as nat);
        assert(v@.subrange(a as int, b as int) =~= t.take(t.len() - trailing_whitespace(t)));
    }
    (a, b)
}

/// Whether `v[from..to]` begins with the characters of `p`.
pub fn has_prefix_in(v: &Vec<char>, from: usize, to: usize, p: &str) -> (r: bool)
    requires
        from <= to <= v@.len(),
    ensures
        r == starts_with(v@.subrange(from as int, to as int), p@),
{
    let ghost s = v@.subrange(from as int, to as int);
    let pc = chars_of(p);
    if pc.len() > to - from {
        return false;
    }
    let mut i: usize = 0;
    while i < pc.len()
        invariant
            s == v@.subrange(from as int, to as int),
            from <= to <= v@.len(),
            pc@ == p@,
            pc@.len() <= s.len(),
            i <= pc@.len(),
            forall|k: int| 0 <= k < i ==> s[k] == pc@[k],
        decreases pc.len() - i,
    {
        if v[from + i] != pc[i] {
            assert(s.take(pc@.len() as int)[i as int] != pc@[i as int]);
            return false;
        }
        i = i + 1;
    }
    assert(s.take(pc@.len() as int) =~= pc@);
    true
}

/// Whether `v` begins with the characters of `p`.
pub fn has_prefix(v: &Vec<char>, p: &str) -> (r: bool)
    ensures
        r == starts_with(v@, p@),
{
    assert(v@.subrange(0, v@.len() as int) =~= v@);
    has_prefix_in(v, 0, v.len(), p)
}

/// The UTF-8 bytes of joined text are the bytes of each part, joined.
pub proof fn lemma_encode_utf8_concat(a: Seq<char>, b: Seq<char>)
    ensures
        encode_utf8(a + b) == encode_utf8(a) + encode_utf8(b),
    decreases a.len(),
{
    if a.len() > 0 {
        assert((a + b).drop_first() =~= a.drop_first() + b);
        lemma_encode_utf8_concat(a.drop_first(), b);
        assert((a + b)[0] == a[0]);
    } else {
        assert(a + b =~= b);
    }
}

/// A piece of text takes no more UTF-8 bytes than the whole.
pub proof fn lemma_encode_utf8_subrange(s: Seq<char>, i: int, j: int)
    requires
        0 <= i <= j <= s.len(),
    ensures
        encode_utf8(s.subrange(i, j)).len() <= encode_utf8(s).len(),
{
    lemma_encode_utf8_concat(s.take(i), s.subrange(i, j));
    lemma_encode_utf8_concat(s.take(i) + s.subrange(i, j), s.skip(j));
    assert(s.take(i) + s.subrange(i, j) + s.skip(j) =~= s);
}

/// The characters `from..to` of `s`, as a string of their own.
pub fn substring(s: &str, from: usize, to: usize) -> (r: String)
    requires
        from <= to <= s@.len(),
    ensures
        r@ == s@.subrange(from as int, to as int),
{
    s.substring_char(from, to).to_owned()
}

/// Trimmed text neither begins nor ends with whitespace.
pub proof fn lemma_trim_ends(s: Seq<char>)
    ensures
        trim(s).len() > 0 ==> !char_is_whitespace(trim(s)[0]) && !char_is_whitespace(
            trim(s).last(),
        ),
{
    lemma_leading_whitespace(s);
    let t = s.skip(leading_whitespace(s) as int);
    lemma_trailing_whitespace(t);
    if trim(s).len() > 0 {
        assert(trim(s)[0] == s[leading_whitespace(s) as int]);
        assert(trim(s).last() == t[t.len() - 1 - trailing_whitespace(t)]);
    }
}

/// Trimming twice is trimming once.
pub proof fn lemma_trim_idempotent(s: Seq<char>)
    ensures
        trim(trim(s)) == trim(s),
{
    let t = trim(s);
    lemma_trim_ends(s);
    lemma_leading_whitespace_unique(t, 0);
    assert(t.skip(0) =~= t);
    lemma_trailing_whitespace_unique(t, 0);
    assert(t.take(t.len() as int) =~= t);
}

/// The pieces of `s` between the occurrences of `c` (what `str::split` with a character
/// gives): there is one piece more than there are occurrences.
pub open spec fn split_on(s: Seq<char>, c: char) -> Seq<Seq<char>>
    decreases s.len(),
{
    match index_of(s, c) {
        None => seq![s],
        Some(i) => if i < s.len() {
            seq![s.take(i as int)] + split_on(s.skip(i + 1int), c)
        } else {
            seq![s]
        },
    }
}

/// Whether every character of `w` is whitespace.
pub open spec fn all_whitespace(w: Seq<char>) -> bool {
    forall|i: int| 0 <= i < w.len() ==> char_is_whitespace(#[trigger] w[i])
}

/// Whitespace in front adds to the whitespace a text begins with.
proof fn lemma_leading_whitespace_prefix(w: Seq<char>, x: Seq<char>)
    requires
        all_whitespace(w),
    ensures
        leading_whitespace(w + x) == w.len() + leading_whitespace(x),
    decreases w.len(),
{
    if w.len() == 0 {
        assert(w + x =~= x);
    } else {
        assert((w + x)[0] == w[0]);
        assert((w + x).drop_first() =~= w.drop_first() + x);
        assert forall|i: int| 0 <= i < w.drop_first().len() implies char_is_whitespace(
            #[trigger] w.drop_first()[i],
        ) by {
            assert(w.drop_first()[i] == w[i + 1]);
        }
        lemma_leading_whitespace_prefix(w.drop_first(), x);
    }
}

/// Whitespace behind adds to the whitespace a text ends with.
proof fn lemma_trailing_whitespace_suffix(x: Seq<char>, w: Seq<char>)
    requires
        all_whitespace(w),
    ensures
        trailing_whitespace(x + w) == w.len() + trailing_whitespace(x),
    decreases w.len(),
{
    if w.len() == 0 {
        assert(x + w =~= x);
    } else {
        assert((x + w).last() == w.last());
        assert((x + w).drop_last() =~= x + w.drop_last());
        assert forall|i: int| 0 <= i < w.drop_last().len() implies char_is_whitespace(
            #[trigger] w.drop_last()[i],
        ) by {
            assert(w.drop_last()[i] == w[i]);
        }
        lemma_trailing_whitespace_suffix(x, w.drop_last());
    }
}

/// Trimming ignores whitespace put in front of a text.
pub proof fn lemma_trim_pad_front(w: Seq<char>, x: Seq<char>)
    requires
        all_whitespace(w),
    ensures
        trim(w + x) == trim(x),
{
    lemma_leading_whitespace_prefix(w, x);
    lemma_leading_whitespace(x);
    assert((w + x).skip(leading_whitespace(w + x) as int) =~= x.skip(leading_whitespace(x) as int));
}

/// Trimming ignores whitespace put behind a text.
pub proof fn lemma_trim_pad_back(x: Seq<char>, w: Seq<char>)
    requires
        all_whitespace(w),
    ensures
        trim(x + w) == trim(x),
{
    lemma_leading_whitespace(x);
    let a = leading_whitespace(x);
    if a < x.len() {
        assert forall|k: int| 0 <= k < a implies char_is_whitespace(#[trigger] (x + w)[k]) by {
            assert((x + w)[k] == x[k]);
        }
        assert((x + w)[a as int] == x[a as int]);
        lemma_leading_whitespace_unique(x + w, a);
        let t = x.skip(a as int);
        assert((x + w).skip(a as int) =~= t + w);
        lemma_trailing_whitespace_suffix(t, w);
        lemma_trailing_whitespace(t);
        assert((t + w).take((t + w).len() - trailing_whitespace(t + w)) =~= t.take(
            t.len() - trailing_whitespace(t),
        ));
    } else {
        assert(all_whitespace(x)) by {
            assert forall|i: int| 0 <= i < x.len() implies char_is_whitespace(#[trigger] x[i]) by {
            }
        }
        lemma_leading_whitespace_prefix(x, w);
        lemma_leading_whitespace_prefix(w, Seq::<char>::empty());
        assert(w + Seq::<char>::empty() =~= w);
        assert((x + w).skip(leading_whitespace(x + w) as int) =~= Seq::<char>::empty());
        assert(x.skip(a as int) =~= Seq::<char>::empty());
    }
}

/// Trimming ignores whitespace put around a text.
pub proof fn lemma_trim_padding(w1: Seq<char>, x: Seq<char>, w2: Seq<char>)
    requires
        all_whitespace(w1),
        all_whitespace(w2),
    ensures
        trim(w1 + x + w2) == trim(x),
{
    assert(w1 + x + w2 =~= w1 + (x + w2));
    lemma_trim_pad_front(w1, x + w2);
    lemma_trim_pad_back(x, w2);
}

/// Text that neither begins nor ends with whitespace is its own trim.
pub proof fn lemma_trim_of_unpadded(s: Seq<char>)
    requires
        s.len() > 0,
        !char_is_whitespace(s[0]),
        !char_is_whitespace(s.last()),
    ensures
        trim(s) == s,
{
    lemma_leading_whitespace_unique(s, 0);
    assert(s.skip(0) =~= s);
    lemma_trailing_whitespace_unique(s, 0);
    assert(s.take(s.len() as int) =~= s);
}

/// The first `c` in `pre`, `c`, `rest` is the one after `pre`, where `pre` holds none.
pub proof fn lemma_index_of_after_prefix(pre: Seq<char>, c: char, rest: Seq<char>)
    requires
        forall|k: int| 0 <= k < pre.len() ==> pre[k] != c,
    ensures
        index_of(pre + seq![c] + rest, c) == Some(pre.len()),
{
    let line = pre + seq![c] + rest;
    assert forall|k: int| 0 <= k < pre.len() implies line[k] != c by {
        assert(line[k] == pre[k]);
    }
    assert(line[pre.len() as int] == c);
    lemma_index_of_from(line, c, 0);
    match index_of(line, c) {
        Some(j) => {
            if j > pre.len() {
                assert(line[pre.len() as int] != c);
            }
        },
        None => {},
    }
}

} // verus!
