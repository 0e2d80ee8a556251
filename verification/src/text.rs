//! Byte-level text helpers for the fixed-width line format: ASCII
//! classification, whitespace trimming, and field padding.
use vstd::prelude::*;
use vstd::string::StrSliceExecFns;

verus! {

/// ASCII code of the space character.
pub const SP: u8 = 32;

/// True for the ASCII whitespace characters that surrounding-whitespace
/// trimming removes: space, tab, line feed, vertical tab, form feed,
/// carriage return.
pub open spec fn is_ws(b: u8) -> bool {
    b == 32 || (9 <= b && b <= 13)
}

/// True when every byte is ASCII (below 128).
pub open spec fn ascii7(s: Seq<u8>) -> bool {
    forall|i: int| 0 <= i < s.len() ==> #[trigger] s[i] < 128
}

/// The characters with the same code points as the given ASCII bytes.
pub open spec fn chars_of(bs: Seq<u8>) -> Seq<char> {
    bs.map(|i: int, b: u8| b as char)
}

/// The bytes with the same code points as the given ASCII characters.
pub open spec fn bytes_of(cs: Seq<char>) -> Seq<u8> {
    cs.map(|i: int, c: char| c as u8)
}

pub proof fn lemma_chars_of_bytes_of(cs: Seq<char>)
    requires
        vstd::utf8::is_ascii_chars(cs),
    ensures
        chars_of(bytes_of(cs)) =~= cs,
{
    assert forall|i: int| 0 <= i < cs.len() implies chars_of(bytes_of(cs))[i] == cs[i] by {
        let c = cs[i];
        assert(c <= '\u{7f}');
        assert((c as u8) as char == c);
    }
}

pub proof fn lemma_ascii7_bytes(cs: Seq<char>)
    requires
        vstd::utf8::is_ascii_chars(cs),
    ensures
        ascii7(bytes_of(cs)),
{
    assert forall|i: int| 0 <= i < bytes_of(cs).len() implies #[trigger] bytes_of(cs)[i]
        < 128 by {
        let c = cs[i];
        assert(c <= '\u{7f}');
    }
}

/// A run of `n` spaces.
pub open spec fn spaces(n: nat) -> Seq<u8> {
    Seq::new(n, |i: int| SP)
}

/// The sequence padded with spaces on the left up to width `w`; a longer
/// sequence is kept as it is, as the formatter widens a full field.
pub open spec fn pad_left(s: Seq<u8>, w: nat) -> Seq<u8> {
    if s.len() < w {
        spaces((w - s.len()) as nat) + s
    } else {
        s
    }
}

/// The sequence padded with spaces on the right up to width `w`; a longer
/// sequence is kept as it is.
pub open spec fn pad_right(s: Seq<u8>, w: nat) -> Seq<u8> {
    if s.len() < w {
        s + spaces((w - s.len()) as nat)
    } else {
        s
    }
}

/// The sequence with its leading whitespace removed.
pub open spec fn trim_front(s: Seq<u8>) -> Seq<u8>
    decreases s.len(),
{
    if s.len() > 0 && is_ws(s[0]) {
        trim_front(s.drop_first())
    } else {
        s
    }
}

/// The sequence with its trailing whitespace removed.
pub open spec fn trim_back(s: Seq<u8>) -> Seq<u8>
    decreases s.len(),
{
    if s.len() > 0 && is_ws(s[s.len() - 1]) {
        trim_back(s.drop_last())
    } else {
        s
    }
}

/// The sequence with surrounding whitespace removed.
pub open spec fn trim_of(s: Seq<u8>) -> Seq<u8> {
    trim_back(trim_front(s))
}

/// True when the sequence has neither leading nor trailing whitespace.
pub open spec fn no_edge_ws(s: Seq<u8>) -> bool {
    s.len() > 0 ==> !is_ws(s[0]) && !is_ws(s[s.len() - 1])
}

pub proof fn lemma_trim_front_index(s: Seq<u8>, k: int)
    requires
        0 <= k <= s.len(),
        forall|i: int| 0 <= i < k ==> is_ws(#[trigger] s[i]),
        k == s.len() || !is_ws(s[k]),
    ensures
        trim_front(s) =~= s.subrange(k, s.len() as int),
    decreases k,
{
    if k == 0 {
        if s.len() > 0 && is_ws(s[0]) {
            assert(false);
        }
        assert(trim_front(s) == s);
        assert(s =~= s.subrange(0, s.len() as int));
    } else {
        assert(is_ws(s[0]));
        let t = s.drop_first();
        assert forall|i: int| 0 <= i < k - 1 implies is_ws(#[trigger] t[i]) by {
            assert(t[i] == s[i + 1]);
        }
        if k - 1 < t.len() {
            assert(t[k - 1] == s[k]);
        }
        lemma_trim_front_index(t, k - 1);
        assert(trim_front(s) == trim_front(t));
        assert(t.subrange(k - 1, t.len() as int) =~= s.subrange(k, s.len() as int));
    }
}

pub proof fn lemma_trim_back_index(s: Seq<u8>, k: int)
    requires
        0 <= k <= s.len(),
        forall|i: int| k <= i < s.len() ==> is_ws(#[trigger] s[i]),
        k == 0 || !is_ws(s[k - 1]),
    ensures
        trim_back(s) =~= s.subrange(0, k),
    decreases s.len(),
{
    if k == s.len() {
        if s.len() > 0 && is_ws(s[s.len() - 1]) {
            assert(false);
        }
        assert(trim_back(s) == s);
        assert(s =~= s.subrange(0, k));
    } else {
        assert(is_ws(s[s.len() - 1]));
        let t = s.drop_last();
        lemma_trim_back_index(t, k);
        assert(trim_back(s) == trim_back(t));
        assert(t.subrange(0, k) =~= s.subrange(0, k));
    }
}

/// Trimming removes exactly the whitespace margin: the trimmed value of
/// the range between the first and last non-whitespace positions.
pub proof fn lemma_trim_of_indexes(s: Seq<u8>, a: int, b: int)
    requires
        0 <= a <= b <= s.len(),
        forall|i: int| 0 <= i < a ==> is_ws(#[trigger] s[i]),
        forall|i: int| b <= i < s.len() ==> is_ws(#[trigger] s[i]),
        a == s.len() || !is_ws(s[a]),
        b == 0 || a == b || !is_ws(s[b - 1]),
    ensures
        trim_of(s) =~= s.subrange(a, b),
{
    if a == b {
        lemma_trim_front_index(s, a);
        let f = s.subrange(a, s.len() as int);
        assert(forall|i: int| 0 <= i < f.len() ==> is_ws(#[trigger] f[i]));
        lemma_trim_back_index(f, 0);
        assert(trim_of(s) =~= s.subrange(a, b));
    } else {
        lemma_trim_front_index(s, a);
        let f = s.subrange(a, s.len() as int);
        assert(f[b - a - 1] == s[b - 1]);
        assert forall|i: int| b - a <= i < f.len() implies is_ws(#[trigger] f[i]) by {
            assert(f[i] == s[i + a]);
        }
        lemma_trim_back_index(f, b - a);
        assert(f.subrange(0, b - a) =~= s.subrange(a, b));
    }
}

/// A value without edge whitespace is untouched by trimming.
pub proof fn lemma_trim_of_clean(s: Seq<u8>)
    requires
        no_edge_ws(s),
    ensures
        trim_of(s) == s,
{
    lemma_trim_of_indexes(s, 0, s.len() as int);
    assert(s.subrange(0, s.len() as int) =~= s);
}

/// Trimming a left-padded value without edge whitespace recovers it.
pub proof fn lemma_trim_of_pad_left(s: Seq<u8>, w: nat)
    requires
        no_edge_ws(s),
    ensures
        trim_of(pad_left(s, w)) == s,
{
    let p = pad_left(s, w);
    if s.len() < w {
        let k = w - s.len();
        assert forall|i: int| 0 <= i < k implies is_ws(#[trigger] p[i]) by {
            assert(p[i] == spaces(k as nat)[i]);
        }
        if s.len() > 0 {
            assert(p[k] == s[0]);
            assert(p[p.len() - 1] == s[s.len() - 1]);
        }
        lemma_trim_of_indexes(p, k as int, p.len() as int);
        assert(p.subrange(k as int, p.len() as int) =~= s);
    } else {
        lemma_trim_of_clean(s);
    }
}

/// Trimming a right-padded value without edge whitespace recovers it.
pub proof fn lemma_trim_of_pad_right(s: Seq<u8>, w: nat)
    requires
        no_edge_ws(s),
    ensures
        trim_of(pad_right(s, w)) == s,
{
    let p = pad_right(s, w);
    if s.len() < w {
        assert forall|i: int| s.len() <= i < p.len() implies is_ws(#[trigger] p[i]) by {
            assert(p[i] == spaces((w - s.len()) as nat)[i - s.len()]);
        }
        if s.len() > 0 {
            assert(p[0] == s[0]);
            assert(p[s.len() - 1] == s[s.len() - 1]);
            lemma_trim_of_indexes(p, 0, s.len() as int);
            assert(p.subrange(0, s.len() as int) =~= s);
        } else {
            lemma_trim_of_indexes(p, p.len() as int, p.len() as int);
            assert(p.subrange(p.len() as int, p.len() as int) =~= s);
        }
    } else {
        lemma_trim_of_clean(s);
    }
}

/// Exec check for the whitespace class.
pub fn is_ws_byte(b: u8) -> (r: bool)
    ensures
        r == is_ws(b),
{
    b == 32 || (9 <= b && b <= 13)
}

/// A fresh copy of the byte range `[lo, hi)` of `v`.
pub fn copy_range(v: &Vec<u8>, lo: usize, hi: usize) -> (r: Vec<u8>)
    requires
        lo <= hi <= v@.len(),
    ensures
        r@ == v@.subrange(lo as int, hi as int),
{
    let mut out: Vec<u8> = Vec::new();
    let mut i: usize = lo;
    while i < hi
        invariant
            lo <= i <= hi <= v@.len(),
            out@ =~= v@.subrange(lo as int, i as int),
        decreases hi - i,
    {
        out.push(v[i]);
        i = i + 1;
        proof {
            assert(out@ =~= v@.subrange(lo as int, i as int));
        }
    }
    out
}

/// The byte range `[lo, hi)` of `v` with surrounding whitespace removed.
pub fn trim_range(v: &Vec<u8>, lo: usize, hi: usize) -> (r: Vec<u8>)
    requires
        lo <= hi <= v@.len(),
    ensures
        r@ == trim_of(v@.subrange(lo as int, hi as int)),
        no_edge_ws(r@),
{
    let ghost s = v@.subrange(lo as int, hi as int);
    let mut a: usize = lo;
    while a < hi && is_ws_byte(v[a])
        invariant
            lo <= a <= hi <= v@.len(),
            forall|i: int| lo <= i < a ==> is_ws(#[trigger] v@[i]),
        decreases hi - a,
    {
        a = a + 1;
    }
    let mut b: usize = hi;
    while b > a && is_ws_byte(v[b - 1])
        invariant
            lo <= a <= b <= hi <= v@.len(),
            forall|i: int| b <= i < hi ==> is_ws(#[trigger] v@[i]),
        decreases b,
    {
        b = b - 1;
    }
    proof {
        assert forall|i: int| 0 <= i < a - lo implies is_ws(#[trigger] s[i]) by {
            assert(s[i] == v@[i + lo]);
        }
        assert forall|i: int| b - lo <= i < s.len() implies is_ws(#[trigger] s[i]) by {
            assert(s[i] == v@[i + lo]);
        }
        if a < hi && a < b {
            assert(s[a - lo] == v@[a as int]);
        }
        if b > a {
            assert(s[b - lo - 1] == v@[b - 1]);
        }
        lemma_trim_of_indexes(s, a - lo, b - lo);
    }
    let r = copy_range(v, a, b);
    proof {
        assert(r@ =~= s.subrange(a - lo, b - lo));
        if r@.len() > 0 {
            assert(r@[0] == v@[a as int]);
            assert(r@[r@.len() - 1] == v@[b - 1]);
        }
    }
    r
}

/// Appends `n` spaces to `out`.
pub fn push_spaces(out: &mut Vec<u8>, n: usize)
    ensures
        final(out)@ == old(out)@ + spaces(n as nat),
{
    let mut i: usize = 0;
    while i < n
        invariant
            i <= n,
            out@ =~= old(out)@ + spaces(i as nat),
        decreases n - i,
    {
        out.push(SP);
        i = i + 1;
        proof {
            assert(out@ =~= old(out)@ + spaces(i as nat));
        }
    }
}

/// Appends all of `v` to `out`.
pub fn push_bytes(out: &mut Vec<u8>, v: &Vec<u8>)
    ensures
        final(out)@ == old(out)@ + v@,
{
    let mut i: usize = 0;
    while i < v.len()
        invariant
            i <= v@.len(),
            out@ =~= old(out)@ + v@.subrange(0, i as int),
        decreases v@.len() - i,
    {
        out.push(v[i]);
        i = i + 1;
        proof {
            assert(out@ =~= old(out)@ + v@.subrange(0, i as int));
        }
    }
    proof {
        assert(v@.subrange(0, v@.len() as int) =~= v@);
    }
}

/// Appends `v` left-padded with spaces to width `w`.
pub fn push_pad_left(out: &mut Vec<u8>, v: &Vec<u8>, w: usize)
    ensures
        final(out)@ == old(out)@ + pad_left(v@, w as nat),
{
    if v.len() < w {
        push_spaces(out, w - v.len());
        push_bytes(out, v);
        proof {
            assert(out@ =~= old(out)@ + pad_left(v@, w as nat));
        }
    } else {
        push_bytes(out, v);
    }
}

/// Appends `v` right-padded with spaces to width `w`.
pub fn push_pad_right(out: &mut Vec<u8>, v: &Vec<u8>, w: usize)
    ensures
        final(out)@ == old(out)@ + pad_right(v@, w as nat),
{
    if v.len() < w {
        let n = w - v.len();
        push_bytes(out, v);
        push_spaces(out, n);
        proof {
            assert(out@ =~= old(out)@ + pad_right(v@, w as nat));
        }
    } else {
        push_bytes(out, v);
    }
}

/// Relies on `String::from_utf8`: a vector of ASCII bytes decodes to the
/// string whose characters have the same code points, one per byte.
#[verifier::external_body]
pub fn ascii_to_string(v: &Vec<u8>) -> (r: String)
    requires
        ascii7(v@),
    ensures
        r@ == chars_of(v@),
{
    match String::from_utf8(v.clone()) {
        Ok(s) => s,
        Err(_) => String::new(),
    }
}

/// The bytes of an ASCII string slice, one byte per character.
pub fn str_to_bytes(s: &str) -> (r: Vec<u8>)
    requires
        s.is_ascii(),
    ensures
        r@ == bytes_of(s@),
        ascii7(r@),
{
    let v = s.as_bytes_vec();
    proof {
        broadcast use vstd::string::is_ascii_spec_bytes;

        assert(v@ =~= bytes_of(s@));
        lemma_ascii7_bytes(s@);
    }
    v
}

/// Concatenation keeps sequences ASCII.
pub proof fn lemma_ascii7_concat(a: Seq<u8>, b: Seq<u8>)
    requires
        ascii7(a),
        ascii7(b),
    ensures
        ascii7(a + b),
{
    assert forall|i: int| 0 <= i < (a + b).len() implies #[trigger] (a + b)[i] < 128 by {
        if i < a.len() {
            assert((a + b)[i] == a[i]);
        } else {
            assert((a + b)[i] == b[i - a.len()]);
        }
    }
}

/// Removing leading whitespace leaves a suffix.
pub proof fn lemma_trim_front_suffix(s: Seq<u8>)
    ensures
        exists|k: int|
            0 <= k <= s.len() && trim_front(s) =~= s.subrange(k, s.len() as int),
    decreases s.len(),
{
    if s.len() > 0 && is_ws(s[0]) {
        lemma_trim_front_suffix(s.drop_first());
        let k = choose|k: int|
            0 <= k <= s.drop_first().len() && trim_front(s.drop_first()) =~= s.drop_first()
                .subrange(k, s.drop_first().len() as int);
        assert(s.drop_first().subrange(k, s.drop_first().len() as int) =~= s.subrange(
            k + 1,
            s.len() as int,
        ));
        assert(trim_front(s) =~= s.subrange(k + 1, s.len() as int));
    } else {
        assert(trim_front(s) =~= s.subrange(0, s.len() as int));
    }
}

/// Removing trailing whitespace leaves a prefix.
pub proof fn lemma_trim_back_prefix(s: Seq<u8>)
    ensures
        exists|k: int| 0 <= k <= s.len() && trim_back(s) =~= s.subrange(0, k),
    decreases s.len(),
{
    if s.len() > 0 && is_ws(s[s.len() - 1]) {
        lemma_trim_back_prefix(s.drop_last());
        let k = choose|k: int|
            0 <= k <= s.drop_last().len() && trim_back(s.drop_last()) =~= s.drop_last().subrange(
                0,
                k,
            );
        assert(s.drop_last().subrange(0, k) =~= s.subrange(0, k));
        assert(trim_back(s) =~= s.subrange(0, k));
    } else {
        assert(trim_back(s) =~= s.subrange(0, s.len() as int));
    }
}

/// A trimmed value is no longer than its field, and stays ASCII.
pub proof fn lemma_trim_of_props(s: Seq<u8>)
    ensures
        trim_of(s).len() <= s.len(),
        ascii7(s) ==> ascii7(trim_of(s)),
{
    lemma_trim_front_suffix(s);
    let k = choose|k: int|
        0 <= k <= s.len() && trim_front(s) =~= s.subrange(k, s.len() as int);
    let f = trim_front(s);
    lemma_trim_back_prefix(f);
    let m = choose|m: int| 0 <= m <= f.len() && trim_back(f) =~= f.subrange(0, m);
    assert(trim_of(s) =~= s.subrange(k, k + m));
    if ascii7(s) {
        assert forall|i: int| 0 <= i < trim_of(s).len() implies #[trigger] trim_of(s)[i]
            < 128 by {
            assert(trim_of(s)[i] == s[k + i]);
        }
    }
}

/// An ASCII character casts to the byte with its code point, below 128.
pub proof fn lemma_ascii_char_byte(c: char)
    requires
        c <= '\u{7f}',
    ensures
        (c as u8) < 128,
        ((c as u8) as char) == c,
        c as u8 == c as u32,
{
    vstd::utf8::char_is_scalar(c);
    assert(c as u32 <= 127);
    vstd::utf8::char_u32_cast(c, c as u32);
}

/// Trimming a value surrounded by spaces recovers it.
pub proof fn lemma_trim_of_surrounded(v: Seq<u8>, lead: nat, tail: nat)
    requires
        no_edge_ws(v),
    ensures
        trim_of(spaces(lead) + v + spaces(tail)) == v,
{
    let s = spaces(lead) + v + spaces(tail);
    assert forall|i: int| 0 <= i < lead implies is_ws(#[trigger] s[i]) by {
        assert(s[i] == spaces(lead)[i]);
    }
    assert forall|i: int| lead + v.len() <= i < s.len() implies is_ws(#[trigger] s[i]) by {
        assert(s[i] == spaces(tail)[i - lead - v.len()]);
    }
    if v.len() > 0 {
        assert(s[lead as int] == v[0]);
        assert(s[lead + v.len() - 1] == v[v.len() - 1]);
        lemma_trim_of_indexes(s, lead as int, lead as int + v.len() as int);
        assert(s.subrange(lead as int, lead as int + v.len() as int) =~= v);
    } else {
        lemma_trim_of_indexes(s, s.len() as int, s.len() as int);
        assert(s.subrange(s.len() as int, s.len() as int) =~= v);
    }
}

/// A trimmed field has no edge whitespace.
pub proof fn lemma_trim_edges(s: Seq<u8>)
    ensures
        no_edge_ws(trim_of(s)),
{
    lemma_trim_front_edge(s);
    lemma_trim_back_edge(trim_front(s));
    let t = trim_of(s);
    if t.len() > 0 {
        assert(!is_ws(t[t.len() - 1]));
        assert(!is_ws(t[0])) by {
            lemma_trim_back_front(trim_front(s));
        }
    }
}

/// Trimming the front leaves no leading whitespace.
proof fn lemma_trim_front_edge(s: Seq<u8>)
    ensures
        trim_front(s).len() > 0 ==> !is_ws(trim_front(s)[0]),
    decreases s.len(),
{
    if s.len() > 0 && is_ws(s[0]) {
        lemma_trim_front_edge(s.drop_first());
    }
}

/// Trimming the back leaves no trailing whitespace.
proof fn lemma_trim_back_edge(s: Seq<u8>)
    ensures
        trim_back(s).len() > 0 ==> !is_ws(trim_back(s)[trim_back(s).len() - 1]),
    decreases s.len(),
{
    if s.len() > 0 && is_ws(s[s.len() - 1]) {
        lemma_trim_back_edge(s.drop_last());
    }
}

/// Trimming the back keeps the first element.
proof fn lemma_trim_back_front(s: Seq<u8>)
    ensures
        trim_back(s).len() > 0 ==> trim_back(s)[0] == s[0],
    decreases s.len(),
{
    if s.len() > 0 && is_ws(s[s.len() - 1]) {
        lemma_trim_back_front(s.drop_last());
    }
}

/// Trimming a right-padded value behind leading spaces recovers it.
pub proof fn lemma_trim_of_sp_pad(v: Seq<u8>, lead: nat, w: nat)
    requires
        no_edge_ws(v),
        v.len() <= w,
    ensures
        trim_of(spaces(lead) + pad_right(v, w)) == v,
{
    assert(spaces(lead) + pad_right(v, w) =~= spaces(lead) + v + spaces((w - v.len()) as nat));
    lemma_trim_of_surrounded(v, lead, (w - v.len()) as nat);
}

} // verus!
