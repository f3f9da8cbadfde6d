//! Character-level primitives: whitespace, trimming, and conversions between
//! `str`/`String` and `Vec<char>`, the representation the parser works on.

use vstd::prelude::*;

verus! {

/// The Unicode `White_Space` code points, the set `char::is_whitespace`
/// recognizes and the set every trimming operation here is defined over.
pub open spec fn is_ws_char(c: char) -> bool {
    let u = c as u32;
    ||| u == 0x20
    ||| (0x09 <= u && u <= 0x0D)
    ||| u == 0x85
    ||| u == 0xA0
    ||| u == 0x1680
    ||| (0x2000 <= u && u <= 0x200A)
    ||| u == 0x2028
    ||| u == 0x2029
    ||| u == 0x202F
    ||| u == 0x205F
    ||| u == 0x3000
}

/// Relies on `char::is_whitespace`: returns whether the character has the
/// Unicode `White_Space` property, whose code points its documentation lists.
pub assume_specification[ char::is_whitespace ](c: char) -> (r: bool)
    ensures
        r == is_ws_char(c),
;

/// Relies on `str::len`: the length of the string in bytes, which is the
/// length of the UTF-8 encoding of its characters.
#[verifier::external_body]
pub(crate) fn byte_len(s: &str) -> (r: usize)
    ensures
        r == vstd::utf8::encode_utf8(s@).len(),
{
    s.len()
}

/// UTF-8 encoding distributes over concatenation.
pub proof fn lemma_encode_utf8_concat(a: Seq<char>, b: Seq<char>)
    ensures
        vstd::utf8::encode_utf8(a + b) == vstd::utf8::encode_utf8(a) + vstd::utf8::encode_utf8(b),
    decreases a.len(),
{
    if a.len() == 0 {
        assert(a + b =~= b);
        assert(vstd::utf8::encode_utf8(a) =~= Seq::<u8>::empty());
        assert(vstd::utf8::encode_utf8(a) + vstd::utf8::encode_utf8(b) =~= vstd::utf8::encode_utf8(
            b,
        ));
    } else {
        assert((a + b)[0] == a[0]);
        assert((a + b).drop_first() =~= a.drop_first() + b);
        lemma_encode_utf8_concat(a.drop_first(), b);
        assert(vstd::utf8::encode_scalar(a[0] as u32) + (vstd::utf8::encode_utf8(a.drop_first())
            + vstd::utf8::encode_utf8(b)) =~= (vstd::utf8::encode_scalar(a[0] as u32)
            + vstd::utf8::encode_utf8(a.drop_first())) + vstd::utf8::encode_utf8(b));
    }
}

/// Every character takes at least one byte: the UTF-8 encoding is at least as
/// long as the character sequence.
pub proof fn lemma_encode_utf8_len(s: Seq<char>)
    ensures
        vstd::utf8::encode_utf8(s).len() >= s.len(),
    decreases s.len(),
{
    if s.len() > 0 {
        lemma_encode_utf8_len(s.drop_first());
        assert(vstd::utf8::encode_scalar(s[0] as u32).len() >= 1);
    }
}

/// Relies on `String::push`: appends one character at the end of the string.
#[verifier::external_body]
pub(crate) fn push_char(s: &mut String, c: char)
    ensures
        final(s)@ == old(s)@.push(c),
{
    s.push(c);
}

/// Copies the characters of a string slice into a vector.
pub(crate) fn str_chars(s: &str) -> (r: Vec<char>)
    ensures
        r@ == s@,
{
    let n = s.unicode_len();
    let mut r: Vec<char> = Vec::new();
    let mut i: usize = 0;
    while i < n
        invariant
            n == s@.len(),
            i <= n,
            r@ == s@.take(i as int),
        decreases n - i,
    {
        let c = s.get_char(i);
        r.push(c);
        i = i + 1;
        proof {
            assert(r@ =~= s@.take(i as int));
        }
    }
    proof {
        assert(r@ =~= s@);
    }
    r
}

/// Collects a vector of characters into an owned string.
pub(crate) fn chars_string(v: &Vec<char>) -> (r: String)
    ensures
        r@ == v@,
{
    let mut r = String::new();
    let mut i: usize = 0;
    while i < v.len()
        invariant
            i <= v@.len(),
            r@ == v@.take(i as int),
        decreases v@.len() - i,
    {
        push_char(&mut r, v[i]);
        i = i + 1;
        proof {
            assert(r@ =~= v@.take(i as int));
        }
    }
    proof {
        assert(r@ =~= v@);
    }
    r
}

/// A copy of `v[a..b]`.
pub(crate) fn sub_vec(v: &Vec<char>, a: usize, b: usize) -> (r: Vec<char>)
    requires
        a <= b <= v@.len(),
    ensures
        r@ == v@.subrange(a as int, b as int),
{
    let mut r: Vec<char> = Vec::new();
    let mut i: usize = a;
    while i < b
        invariant
            a <= i <= b <= v@.len(),
            r@ == v@.subrange(a as int, i as int),
        decreases b - i,
    {
        r.push(v[i]);
        i = i + 1;
        proof {
            assert(r@ =~= v@.subrange(a as int, i as int));
        }
    }
    r
}

/// Whether two character vectors hold the same characters.
pub(crate) fn vec_eq(a: &Vec<char>, b: &Vec<char>) -> (r: bool)
    ensures
        r == (a@ == b@),
{
    if a.len() != b.len() {
        proof {
            assert(a@ != b@);
        }
        return false;
    }
    let mut i: usize = 0;
    while i < a.len()
        invariant
            i <= a@.len(),
            a@.len() == b@.len(),
            forall|j: int| 0 <= j < i ==> a@[j] == b@[j],
        decreases a@.len() - i,
    {
        if a[i] != b[i] {
            proof {
                assert(a@[i as int] != b@[i as int]);
            }
            return false;
        }
        i = i + 1;
    }
    proof {
        assert(a@ =~= b@);
    }
    true
}

/// `s` with every trailing whitespace character removed.
pub open spec fn spec_trim_end(s: Seq<char>) -> Seq<char>
    decreases s.len(),
{
    if s.len() == 0 {
        s
    } else if is_ws_char(s[s.len() - 1]) {
        spec_trim_end(s.drop_last())
    } else {
        s
    }
}

/// `s` with every leading whitespace character removed.
pub open spec fn spec_trim_start(s: Seq<char>) -> Seq<char>
    decreases s.len(),
{
    if s.len() == 0 {
        s
    } else if is_ws_char(s[0]) {
        spec_trim_start(s.drop_first())
    } else {
        s
    }
}

/// `s` with leading and trailing whitespace removed.
pub open spec fn spec_trim(s: Seq<char>) -> Seq<char> {
    spec_trim_start(spec_trim_end(s))
}

/// `spec_trim_end` keeps exactly the prefix that ends at the last non-whitespace
/// character.
pub proof fn lemma_trim_end_take(s: Seq<char>, b: int)
    requires
        0 <= b <= s.len(),
        forall|i: int| b <= i < s.len() ==> is_ws_char(s[i]),
        b > 0 ==> !is_ws_char(s[b - 1]),
    ensures
        spec_trim_end(s) == s.take(b),
    decreases s.len(),
{
    if s.len() == 0 {
        assert(spec_trim_end(s) =~= s.take(b));
    } else if is_ws_char(s[s.len() - 1]) {
        assert(b < s.len());
        lemma_trim_end_take(s.drop_last(), b);
        assert(s.drop_last().take(b) =~= s.take(b));
    } else {
        assert(b == s.len());
        assert(spec_trim_end(s) =~= s.take(b));
    }
}

/// `spec_trim_start` keeps exactly the suffix that starts at the first
/// non-whitespace character.
pub proof fn lemma_trim_start_skip(s: Seq<char>, a: int)
    requires
        0 <= a <= s.len(),
        forall|i: int| 0 <= i < a ==> is_ws_char(s[i]),
        a < s.len() ==> !is_ws_char(s[a]),
    ensures
        spec_trim_start(s) == s.skip(a),
    decreases s.len(),
{
    if s.len() == 0 {
        assert(spec_trim_start(s) =~= s.skip(a));
    } else if is_ws_char(s[0]) {
        assert(a > 0);
        lemma_trim_start_skip(s.drop_first(), a - 1);
        assert(s.drop_first().skip(a - 1) =~= s.skip(a));
    } else {
        assert(a == 0);
        assert(spec_trim_start(s) =~= s.skip(a));
    }
}

/// `spec_trim` is the subrange between the first and last non-whitespace
/// characters, and empty when there is none.
pub proof fn lemma_trim_subrange(s: Seq<char>, a: int, b: int)
    requires
        0 <= a <= s.len(),
        0 <= b <= s.len(),
        forall|i: int| 0 <= i < a ==> is_ws_char(s[i]),
        a < s.len() ==> !is_ws_char(s[a]),
        forall|i: int| b <= i < s.len() ==> is_ws_char(s[i]),
        b > 0 ==> !is_ws_char(s[b - 1]),
    ensures
        a <= b ==> spec_trim(s) == s.subrange(a, b),
        a > b ==> spec_trim(s) == Seq::<char>::empty(),
{
    lemma_trim_end_take(s, b);
    if a <= b {
        lemma_trim_start_skip(s.take(b), a);
        assert(s.take(b).skip(a) =~= s.subrange(a, b));
    } else {
        // only possible when every character is whitespace: a == s.len(), b == 0
        assert(b == 0) by {
            if b > 0 {
                assert(!is_ws_char(s[b - 1]));
                assert(b - 1 < a);
                assert(is_ws_char(s[b - 1]));
            }
        }
        lemma_trim_start_skip(s.take(0), 0);
        assert(s.take(0).skip(0) =~= Seq::<char>::empty());
    }
}

/// Index one past the last non-whitespace character of `v` (0 when all
/// whitespace).
pub(crate) fn ws_end(v: &Vec<char>) -> (b: usize)
    ensures
        b <= v@.len(),
        forall|i: int| b <= i < v@.len() ==> is_ws_char(v@[i]),
        b > 0 ==> !is_ws_char(v@[b - 1]),
{
    let mut b: usize = v.len();
    while b > 0 && v[b - 1].is_whitespace()
        invariant
            b <= v@.len(),
            forall|i: int| b <= i < v@.len() ==> is_ws_char(v@[i]),
        decreases b,
    {
        b = b - 1;
    }
    b
}

/// Index of the first non-whitespace character of `v` at or after `from`
/// (`v.len()` when there is none).
pub(crate) fn ws_start_from(v: &Vec<char>, from: usize) -> (a: usize)
    requires
        from <= v@.len(),
    ensures
        from <= a <= v@.len(),
        forall|i: int| from <= i < a ==> is_ws_char(v@[i]),
        a < v@.len() ==> !is_ws_char(v@[a as int]),
{
    let mut a: usize = from;
    while a < v.len() && v[a].is_whitespace()
        invariant
            from <= a <= v@.len(),
            forall|i: int| from <= i < a ==> is_ws_char(v@[i]),
        decreases v@.len() - a,
    {
        a = a + 1;
    }
    a
}

/// A copy of `v` with leading and trailing whitespace removed.
pub(crate) fn trim_chars(v: &Vec<char>) -> (r: Vec<char>)
    ensures
        r@ == spec_trim(v@),
{
    let b = ws_end(v);
    let a = ws_start_from(v, 0);
    proof {
        lemma_trim_subrange(v@, a as int, b as int);
    }
    if a <= b {
        sub_vec(v, a, b)
    } else {
        Vec::new()
    }
}

/// A copy of `v` with trailing whitespace removed.
pub(crate) fn trim_end_chars(v: &Vec<char>) -> (r: Vec<char>)
    ensures
        r@ == spec_trim_end(v@),
{
    let b = ws_end(v);
    proof {
        lemma_trim_end_take(v@, b as int);
    }
    sub_vec(v, 0, b)
}

/// `s` with every trailing `'\n'` removed.
pub open spec fn spec_trim_nl_end(s: Seq<char>) -> Seq<char>
    decreases s.len(),
{
    if s.len() == 0 {
        s
    } else if s[s.len() - 1] == '\n' {
        spec_trim_nl_end(s.drop_last())
    } else {
        s
    }
}

/// `s` with every leading `'\n'` removed.
pub open spec fn spec_trim_nl_start(s: Seq<char>) -> Seq<char>
    decreases s.len(),
{
    if s.len() == 0 {
        s
    } else if s[0] == '\n' {
        spec_trim_nl_start(s.drop_first())
    } else {
        s
    }
}

/// `s` with leading and trailing `'\n'` characters removed, the final cleanup
/// a captured block goes through.
pub open spec fn spec_trim_newlines(s: Seq<char>) -> Seq<char> {
    spec_trim_nl_start(spec_trim_nl_end(s))
}

/// `spec_trim_end` keeps a prefix: what it cuts is whitespace, and what it
/// keeps ends in none.
pub proof fn lemma_trim_end_props(s: Seq<char>)
    ensures
        spec_trim_end(s).len() <= s.len(),
        spec_trim_end(s) == s.take(spec_trim_end(s).len() as int),
        forall|i: int| spec_trim_end(s).len() <= i < s.len() ==> is_ws_char(s[i]),
        spec_trim_end(s).len() > 0 ==> !is_ws_char(s[spec_trim_end(s).len() - 1]),
    decreases s.len(),
{
    if s.len() == 0 {
        assert(spec_trim_end(s) =~= s.take(0));
    } else if is_ws_char(s[s.len() - 1]) {
        lemma_trim_end_props(s.drop_last());
        let t = spec_trim_end(s);
        assert(s.drop_last().take(t.len() as int) =~= s.take(t.len() as int));
        assert forall|i: int| t.len() <= i < s.len() implies is_ws_char(s[i]) by {
            if i < s.len() - 1 {
                assert(is_ws_char(s.drop_last()[i]));
            }
        }
        if t.len() > 0 {
            assert(s[t.len() - 1] == s.drop_last()[t.len() - 1]);
        }
    } else {
        assert(spec_trim_end(s) =~= s.take(s.len() as int));
    }
}

/// `spec_trim_start` keeps a suffix: what it cuts is whitespace, and what it
/// keeps starts with none.
pub proof fn lemma_trim_start_props(s: Seq<char>)
    ensures
        spec_trim_start(s).len() <= s.len(),
        spec_trim_start(s) == s.skip(s.len() - spec_trim_start(s).len()),
        forall|i: int| 0 <= i < s.len() - spec_trim_start(s).len() ==> is_ws_char(s[i]),
        spec_trim_start(s).len() > 0 ==> !is_ws_char(spec_trim_start(s)[0]),
    decreases s.len(),
{
    if s.len() == 0 {
        assert(spec_trim_start(s) =~= s.skip(0));
    } else if is_ws_char(s[0]) {
        lemma_trim_start_props(s.drop_first());
        let t = spec_trim_start(s);
        assert(s.drop_first().skip(s.len() - 1 - t.len()) =~= s.skip(s.len() - t.len()));
        assert forall|i: int| 0 <= i < s.len() - t.len() implies is_ws_char(s[i]) by {
            if i > 0 {
                assert(is_ws_char(s.drop_first()[i - 1]));
            }
        }
    } else {
        assert(spec_trim_start(s) =~= s.skip(0));
    }
}

/// A string that equals its own trim neither starts nor ends in whitespace.
pub proof fn lemma_trim_fixed(s: Seq<char>)
    requires
        s == spec_trim(s),
        s.len() > 0,
    ensures
        !is_ws_char(s[0]),
        !is_ws_char(s[s.len() - 1]),
{
    let u = spec_trim_end(s);
    lemma_trim_end_props(s);
    lemma_trim_start_props(u);
    assert(spec_trim(s).len() <= u.len() <= s.len());
    assert(u.len() == s.len());
    assert(u =~= s);
    assert(!is_ws_char(s[s.len() - 1]));
    assert(spec_trim_start(u).len() == u.len());
    assert(!is_ws_char(spec_trim_start(u)[0]));
}

/// Trimming a string whose first and last characters are not whitespace
/// leaves it unchanged.
pub proof fn lemma_trim_id(s: Seq<char>)
    requires
        s.len() > 0,
        !is_ws_char(s[0]),
        !is_ws_char(s[s.len() - 1]),
    ensures
        spec_trim(s) == s,
{
    lemma_trim_subrange(s, 0, s.len() as int);
    assert(s.subrange(0, s.len() as int) =~= s);
}

/// Dropping a trailing whitespace character does not change the trim.
pub proof fn lemma_trim_drop_last_ws(s: Seq<char>)
    requires
        s.len() > 0,
        is_ws_char(s[s.len() - 1]),
    ensures
        spec_trim(s) == spec_trim(s.drop_last()),
{
}

/// How `spec_trim_end` distributes over a one-character prepend.
pub proof fn lemma_trim_end_prepend(c: char, x: Seq<char>)
    ensures
        spec_trim_end(seq![c] + x) == if spec_trim_end(x).len() > 0 {
            seq![c] + spec_trim_end(x)
        } else {
            spec_trim_end(seq![c])
        },
    decreases x.len(),
{
    let s = seq![c] + x;
    if x.len() == 0 {
        assert(s =~= seq![c]);
    } else if is_ws_char(x[x.len() - 1]) {
        assert(s[s.len() - 1] == x[x.len() - 1]);
        assert(s.drop_last() =~= seq![c] + x.drop_last());
        lemma_trim_end_prepend(c, x.drop_last());
    } else {
        assert(s[s.len() - 1] == x[x.len() - 1]);
        assert(spec_trim_end(s) == s);
        assert(spec_trim_end(x) == x);
    }
}

/// Prepending a whitespace character does not change the trim.
pub proof fn lemma_trim_prepend_ws(c: char, x: Seq<char>)
    requires
        is_ws_char(c),
    ensures
        spec_trim(seq![c] + x) == spec_trim(x),
{
    lemma_trim_end_prepend(c, x);
    if spec_trim_end(x).len() > 0 {
        let t = seq![c] + spec_trim_end(x);
        assert(is_ws_char(t[0]));
        assert(t.drop_first() =~= spec_trim_end(x));
        assert(spec_trim_start(t) == spec_trim_start(spec_trim_end(x)));
    } else {
        let t = spec_trim_end(seq![c]);
        assert(seq![c].len() == 1);
        assert(seq![c][0] == c);
        assert(is_ws_char(seq![c][0]));
        assert(seq![c].drop_last() =~= Seq::<char>::empty());
        assert(t == spec_trim_end(Seq::<char>::empty()));
        assert(t =~= Seq::<char>::empty());
        assert(spec_trim_start(t).len() == 0);
        assert(spec_trim(x) =~= Seq::<char>::empty());
    }
}

/// Prepending any all-whitespace prefix does not change the trim.
pub proof fn lemma_trim_ws_prefix(w: Seq<char>, x: Seq<char>)
    requires
        forall|i: int| 0 <= i < w.len() ==> is_ws_char(w[i]),
    ensures
        spec_trim(w + x) == spec_trim(x),
    decreases w.len(),
{
    if w.len() == 0 {
        assert(w + x =~= x);
    } else {
        assert(w + x =~= seq![w[0]] + (w.drop_first() + x));
        lemma_trim_prepend_ws(w[0], w.drop_first() + x);
        lemma_trim_ws_prefix(w.drop_first(), x);
    }
}

pub proof fn lemma_trim_nl_end_take(s: Seq<char>, b: int)
    requires
        0 <= b <= s.len(),
        forall|i: int| b <= i < s.len() ==> s[i] == '\n',
        b > 0 ==> s[b - 1] != '\n',
    ensures
        spec_trim_nl_end(s) == s.take(b),
    decreases s.len(),
{
    if s.len() == 0 {
        assert(spec_trim_nl_end(s) =~= s.take(b));
    } else if s[s.len() - 1] == '\n' {
        assert(b < s.len());
        lemma_trim_nl_end_take(s.drop_last(), b);
        assert(s.drop_last().take(b) =~= s.take(b));
    } else {
        assert(b == s.len());
        assert(spec_trim_nl_end(s) =~= s.take(b));
    }
}

pub proof fn lemma_trim_nl_start_skip(s: Seq<char>, a: int)
    requires
        0 <= a <= s.len(),
        forall|i: int| 0 <= i < a ==> s[i] == '\n',
        a < s.len() ==> s[a] != '\n',
    ensures
        spec_trim_nl_start(s) == s.skip(a),
    decreases s.len(),
{
    if s.len() == 0 {
        assert(spec_trim_nl_start(s) =~= s.skip(a));
    } else if s[0] == '\n' {
        assert(a > 0);
        lemma_trim_nl_start_skip(s.drop_first(), a - 1);
        assert(s.drop_first().skip(a - 1) =~= s.skip(a));
    } else {
        assert(a == 0);
        assert(spec_trim_nl_start(s) =~= s.skip(a));
    }
}

/// A copy of `v` with leading and trailing `'\n'` characters removed.
pub(crate) fn trim_newline_chars(v: &Vec<char>) -> (r: Vec<char>)
    ensures
        r@ == spec_trim_newlines(v@),
{
    let mut b: usize = v.len();
    while b > 0 && v[b - 1] == '\n'
        invariant
            b <= v@.len(),
            forall|i: int| b <= i < v@.len() ==> v@[i] == '\n',
        decreases b,
    {
        b = b - 1;
    }
    proof {
        lemma_trim_nl_end_take(v@, b as int);
    }
    let mut a: usize = 0;
    while a < b && v[a] == '\n'
        invariant
            a <= b <= v@.len(),
            forall|i: int| 0 <= i < a ==> v@[i] == '\n',
        decreases b - a,
    {
        a = a + 1;
    }
    proof {
        let t = spec_trim_nl_end(v@);
        assert(t == v@.take(b as int));
        assert forall|i: int| 0 <= i < a implies t[i] == '\n' by {
            assert(t[i] == v@[i]);
        }
        if a < t.len() {
            assert(a < b);
            assert(t[a as int] == v@[a as int]);
        }
        lemma_trim_nl_start_skip(t, a as int);
        assert(t.skip(a as int) =~= v@.subrange(a as int, b as int));
    }
    sub_vec(v, a, b)
}

} // verus!
