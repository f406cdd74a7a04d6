//! Text primitives: byte-offset spans of a source text, trimming, character
//! replacement, decimal numerals, joining and the lexicographic order.
//!
//! Every text is modelled by its sequence of characters (`Seq<char>`); byte
//! offsets refer to the UTF-8 encoding of that sequence.
use vstd::prelude::*;
use vstd::string::*;
use vstd::utf8::*;

verus! {

/// Appends one character to a string (`String::push`): the new contents are
/// the old ones followed by `c`.
#[verifier::external_body]
pub(crate) fn push_char(s: &mut String, c: char)
    ensures
        final(s)@ == old(s)@.push(c),
{
    s.push(c)
}

/// The characters of a text, in order.
pub fn to_chars(s: &str) -> (v: Vec<char>)
    ensures
        v@ == s@,
{
    let mut v: Vec<char> = Vec::new();
    let it = s.chars();
    for c in iter: it
        invariant
            v@ == iter.seq().take(iter.index()),
    {
        v.push(c);
    }
    v
}

/// The text made of `v[from..to]`.
pub fn from_chars(v: &Vec<char>, from: usize, to: usize) -> (s: String)
    requires
        from <= to <= v.len(),
    ensures
        s@ == v@.subrange(from as int, to as int),
{
    let mut s = String::new();
    let mut i: usize = from;
    while i < to
        invariant
            from <= i <= to <= v.len(),
            s@ == v@.subrange(from as int, i as int),
        decreases to - i,
    {
        push_char(&mut s, v[i]);
        i += 1;
    }
    s
}

/// Whether two texts hold the same characters.
pub fn same_text(a: &str, b: &str) -> (r: bool)
    ensures
        r == (a@ == b@),
{
    let x = a.to_owned();
    let y = b.to_owned();
    x == y
}

// ---------------------------------------------------------------------------
// Spans
// ---------------------------------------------------------------------------

/// Whether `start..end` is a range of whole characters inside the UTF-8
/// encoding of `src`.
pub open spec fn span_ok(src: Seq<char>, start: int, end: int) -> bool {
    let bytes = encode_utf8(src);
    &&& 0 <= start <= end <= bytes.len()
    &&& is_char_boundary(bytes, start)
    &&& is_char_boundary(bytes, end)
}

/// The text that the bytes `start..end` of `src` spell; empty where the range
/// does not delimit whole characters of `src`.
pub open spec fn span(src: Seq<char>, start: int, end: int) -> Seq<char> {
    if span_ok(src, start, end) {
        decode_utf8(encode_utf8(src).subrange(start, end))
    } else {
        Seq::empty()
    }
}

/// The slice of `source` between two byte offsets.
pub fn span_text<'a>(source: &'a str, start: usize, end: usize) -> (r: &'a str)
    ensures
        r@ == span(source@, start as int, end as int),
{
    broadcast use encode_utf8_decode_utf8;
    broadcast use encode_utf8_valid_utf8;

    let size = source.as_bytes().len();
    if start <= end && end <= size && source.is_char_boundary(start)
        && source.is_char_boundary(end) {
        let (head, _) = source.split_at(end);
        proof {
            let bytes = source.spec_bytes();
            let hb = head.spec_bytes();
            assert(hb =~= bytes.subrange(0, end as int));
            lemma_boundary_in_prefix(bytes, start as int, end as int);
        }
        let (_, mid) = head.split_at(start);
        proof {
            let bytes = source.spec_bytes();
            assert(mid.spec_bytes() =~= bytes.subrange(start as int, end as int));
            assert(mid@ == decode_utf8(mid.spec_bytes()));
            assert(span_ok(source@, start as int, end as int));
        }
        mid
    } else {
        let e = "";
        proof {
            reveal_strlit("");
            assert(e@ =~= Seq::<char>::empty());
            assert(!span_ok(source@, start as int, end as int));
        }
        e
    }
}

/// A character boundary of a text is one of each prefix that reaches it.
proof fn lemma_boundary_in_prefix(bytes: Seq<u8>, start: int, end: int)
    requires
        valid_utf8(bytes),
        0 <= start <= end <= bytes.len(),
        is_char_boundary(bytes, start),
        is_char_boundary(bytes, end),
    ensures
        is_char_boundary(bytes.subrange(0, end), start),
{
    let head = bytes.subrange(0, end);
    valid_utf8_split(bytes, end);
    if start == end {
        is_char_boundary_start_end_of_seq(head);
    } else if start > 0 {
        is_char_boundary_iff_not_is_continuation_byte(bytes, start);
        is_char_boundary_iff_not_is_continuation_byte(head, start);
    }
}

// ---------------------------------------------------------------------------
// Trimming
// ---------------------------------------------------------------------------

/// The characters with the Unicode property `White_Space`.
pub open spec fn is_whitespace(c: char) -> bool {
    let u = c as u32;
    ||| 0x09 <= u <= 0x0D
    ||| u == 0x20
    ||| u == 0x85
    ||| u == 0xA0
    ||| u == 0x1680
    ||| 0x2000 <= u <= 0x200A
    ||| u == 0x2028
    ||| u == 0x2029
    ||| u == 0x202F
    ||| u == 0x205F
    ||| u == 0x3000
}

/// Decides `is_whitespace`.
pub fn whitespace_char(c: char) -> (b: bool)
    ensures
        b == is_whitespace(c),
{
    let u: u32 = c as u32;
    (0x09 <= u && u <= 0x0D) || u == 0x20 || u == 0x85 || u == 0xA0 || u == 0x1680 || (0x2000 <= u
        && u <= 0x200A) || u == 0x2028 || u == 0x2029 || u == 0x202F || u == 0x205F || u == 0x3000
}

/// `s` without its leading whitespace.
pub open spec fn trim_start(s: Seq<char>) -> Seq<char>
    decreases s.len(),
{
    if s.len() > 0 && is_whitespace(s[0]) {
        trim_start(s.drop_first())
    } else {
        s
    }
}

/// `s` without its trailing whitespace.
pub open spec fn trim_end(s: Seq<char>) -> Seq<char>
    decreases s.len(),
{
    if s.len() > 0 && is_whitespace(s.last()) {
        trim_end(s.drop_last())
    } else {
        s
    }
}

/// `s` without leading and trailing whitespace.
pub open spec fn trim(s: Seq<char>) -> Seq<char> {
    trim_end(trim_start(s))
}

proof fn lemma_trim_start_skip(s: Seq<char>, k: int)
    requires
        0 <= k <= s.len(),
        forall|i: int| 0 <= i < k ==> is_whitespace(#[trigger] s[i]),
    ensures
        trim_start(s) == trim_start(s.skip(k)),
    decreases k,
{
    if k == 0 {
        assert(s.skip(0) =~= s);
    } else {
        let t = s.drop_first();
        assert forall|i: int| 0 <= i < k - 1 implies is_whitespace(#[trigger] t[i]) by {
            assert(t[i] == s[i + 1]);
        }
        lemma_trim_start_skip(t, k - 1);
        assert(t.skip(k - 1) =~= s.skip(k));
    }
}

proof fn lemma_trim_end_take(s: Seq<char>, k: int)
    requires
        0 <= k <= s.len(),
        forall|i: int| k <= i < s.len() ==> is_whitespace(#[trigger] s[i]),
    ensures
        trim_end(s) == trim_end(s.take(k)),
    decreases s.len() - k,
{
    if k == s.len() {
        assert(s.take(k) =~= s);
    } else {
        let t = s.drop_last();
        assert(is_whitespace(s[s.len() - 1]));
        assert forall|i: int| k <= i < t.len() implies is_whitespace(#[trigger] t[i]) by {
            assert(t[i] == s[i]);
        }
        lemma_trim_end_take(t, k);
        assert(t.take(k) =~= s.take(k));
    }
}

/// `s` without leading and trailing whitespace.
pub fn trim_text(s: &str) -> (r: String)
    ensures
        r@ == trim(s@),
{
    let v = to_chars(s);
    let n = v.len();
    let mut lo: usize = 0;
    while lo < n && whitespace_char(v[lo])
        invariant
            n == v.len(),
            lo <= n,
            forall|i: int| 0 <= i < lo ==> is_whitespace(#[trigger] v@[i]),
        decreases n - lo,
    {
        lo += 1;
    }
    let mut hi: usize = n;
    while hi > lo && whitespace_char(v[hi - 1])
        invariant
            n == v.len(),
            lo <= hi <= n,
            forall|i: int| hi <= i < n ==> is_whitespace(#[trigger] v@[i]),
        decreases hi,
    {
        hi -= 1;
    }
    proof {
        let rest = v@.skip(lo as int);
        lemma_trim_start_skip(v@, lo as int);
        assert(trim_start(rest) == rest) by {
            if rest.len() > 0 {
                assert(rest[0] == v@[lo as int]);
            }
        }
        let k = hi - lo;
        assert forall|i: int| k <= i < rest.len() implies is_whitespace(#[trigger] rest[i]) by {
            assert(rest[i] == v@[i + lo]);
        }
        lemma_trim_end_take(rest, k);
        let kept = rest.take(k);
        assert(trim_end(kept) == kept) by {
            if kept.len() > 0 {
                assert(kept.last() == v@[hi - 1]);
            }
        }
        assert(kept =~= v@.subrange(lo as int, hi as int));
    }
    from_chars(&v, lo, hi)
}

// ---------------------------------------------------------------------------
// Replacement
// ---------------------------------------------------------------------------

/// `s` with every `from` turned into `to`.
pub open spec fn replaced(s: Seq<char>, from: char, to: char) -> Seq<char> {
    Seq::new(
        s.len(),
        |i: int|
            if s[i] == from {
                to
            } else {
                s[i]
            },
    )
}

/// `s` with every `from` turned into `to`.
pub fn replace_char(s: &str, from: char, to: char) -> (r: String)
    ensures
        r@ == replaced(s@, from, to),
{
    let v = to_chars(s);
    let mut r = String::new();
    let mut i: usize = 0;
    while i < v.len()
        invariant
            i <= v.len(),
            v@ == s@,
            r@ == replaced(s@, from, to).take(i as int),
        decreases v.len() - i,
    {
        let c = v[i];
        if c == from {
            push_char(&mut r, to);
        } else {
            push_char(&mut r, c);
        }
        i += 1;
        assert(r@ =~= replaced(s@, from, to).take(i as int));
    }
    assert(r@ =~= replaced(s@, from, to));
    r
}

/// A text made safe to stand between double quotes: each `"` becomes `'`.
pub open spec fn unquoted(s: Seq<char>) -> Seq<char> {
    replaced(s, '"', '\'')
}

/// A text made safe to stand on one line between double quotes: each `"`
/// becomes `'`, then each line feed a space.
pub open spec fn one_line(s: Seq<char>) -> Seq<char> {
    replaced(unquoted(s), '\n', ' ')
}

/// Computes `unquoted`.
pub fn unquote_text(s: &str) -> (r: String)
    ensures
        r@ == unquoted(s@),
{
    replace_char(s, '"', '\'')
}

/// Computes `one_line`.
pub fn one_line_text(s: &str) -> (r: String)
    ensures
        r@ == one_line(s@),
{
    let q = replace_char(s, '"', '\'');
    replace_char(q.as_str(), '\n', ' ')
}

// ---------------------------------------------------------------------------
// Prefix before the first dot
// ---------------------------------------------------------------------------

/// The characters of `s` that stand before its first `.`; all of `s` where it
/// holds none.
pub open spec fn before_dot(s: Seq<char>) -> Seq<char>
    decreases s.len(),
{
    if s.len() == 0 || s[0] == '.' {
        Seq::empty()
    } else {
        seq![s[0]] + before_dot(s.drop_first())
    }
}

proof fn lemma_before_dot_skip(s: Seq<char>, k: int)
    requires
        0 <= k <= s.len(),
        forall|i: int| 0 <= i < k ==> #[trigger] s[i] != '.',
    ensures
        before_dot(s) == s.take(k) + before_dot(s.skip(k)),
    decreases k,
{
    if k == 0 {
        assert(s.skip(0) =~= s);
        assert(s.take(0) + before_dot(s) =~= before_dot(s));
    } else {
        let t = s.drop_first();
        assert(s[0] != '.');
        assert forall|i: int| 0 <= i < k - 1 implies #[trigger] t[i] != '.' by {
            assert(t[i] == s[i + 1]);
        }
        lemma_before_dot_skip(t, k - 1);
        assert(t.skip(k - 1) =~= s.skip(k));
        assert(seq![s[0]] + (t.take(k - 1) + before_dot(s.skip(k))) =~= s.take(k) + before_dot(
            s.skip(k),
        ));
    }
}

/// Computes `before_dot`.
pub fn before_dot_text(s: &str) -> (r: String)
    ensures
        r@ == before_dot(s@),
{
    let v = to_chars(s);
    let n = v.len();
    let mut i: usize = 0;
    while i < n && v[i] != '.'
        invariant
            n == v.len(),
            i <= n,
            forall|j: int| 0 <= j < i ==> #[trigger] v@[j] != '.',
        decreases n - i,
    {
        i += 1;
    }
    proof {
        lemma_before_dot_skip(v@, i as int);
        let rest = v@.skip(i as int);
        assert(before_dot(rest) =~= Seq::<char>::empty()) by {
            if rest.len() > 0 {
                assert(rest[0] == v@[i as int]);
            }
        }
        assert(v@.take(i as int) + before_dot(rest) =~= v@.subrange(0, i as int));
    }
    from_chars(&v, 0, i)
}

// ---------------------------------------------------------------------------
// Decimal numerals
// ---------------------------------------------------------------------------

/// The character of a decimal digit.
pub open spec fn digit(d: nat) -> char {
    if d == 0 {
        '0'
    } else if d == 1 {
        '1'
    } else if d == 2 {
        '2'
    } else if d == 3 {
        '3'
    } else if d == 4 {
        '4'
    } else if d == 5 {
        '5'
    } else if d == 6 {
        '6'
    } else if d == 7 {
        '7'
    } else if d == 8 {
        '8'
    } else {
        '9'
    }
}

/// The decimal numeral of `n`, without leading zeros.
pub open spec fn decimal(n: nat) -> Seq<char>
    decreases n,
{
    if n < 10 {
        seq![digit(n)]
    } else {
        decimal(n / 10).push(digit(n % 10))
    }
}

fn digit_char(d: usize) -> (c: char)
    requires
        d < 10,
    ensures
        c == digit(d as nat),
{
    if d == 0 {
        '0'
    } else if d == 1 {
        '1'
    } else if d == 2 {
        '2'
    } else if d == 3 {
        '3'
    } else if d == 4 {
        '4'
    } else if d == 5 {
        '5'
    } else if d == 6 {
        '6'
    } else if d == 7 {
        '7'
    } else if d == 8 {
        '8'
    } else {
        '9'
    }
}

/// Computes `decimal`.
pub fn decimal_text(n: usize) -> (r: String)
    ensures
        r@ == decimal(n as nat),
    decreases n,
{
    if n < 10 {
        let mut r = String::new();
        push_char(&mut r, digit_char(n));
        assert(r@ =~= seq![digit(n as nat)]);
        r
    } else {
        let mut r = decimal_text(n / 10);
        push_char(&mut r, digit_char(n % 10));
        r
    }
}

// ---------------------------------------------------------------------------
// Joining and clipping
// ---------------------------------------------------------------------------

/// The texts of `parts` in order, with `sep` between neighbours.
pub open spec fn joined(parts: Seq<Seq<char>>, sep: Seq<char>) -> Seq<char>
    decreases parts.len(),
{
    if parts.len() == 0 {
        Seq::empty()
    } else if parts.len() == 1 {
        parts[0]
    } else {
        joined(parts.drop_last(), sep) + sep + parts.last()
    }
}

/// The views of a vector of strings.
pub open spec fn texts(v: Seq<String>) -> Seq<Seq<char>> {
    Seq::new(v.len(), |i: int| v[i]@)
}

/// Computes `joined`.
pub fn join_texts(parts: &Vec<String>, sep: &str) -> (r: String)
    ensures
        r@ == joined(texts(parts@), sep@),
{
    let mut r = String::new();
    let mut i: usize = 0;
    while i < parts.len()
        invariant
            i <= parts.len(),
            r@ == joined(texts(parts@).take(i as int), sep@),
        decreases parts.len() - i,
    {
        if i > 0 {
            r.append(sep);
        }
        r.append(parts[i].as_str());
        proof {
            let all = texts(parts@);
            let now = all.take(i + 1);
            assert(now.drop_last() =~= all.take(i as int));
            assert(now.last() == parts@[i as int]@);
            if i == 0 {
                assert(r@ =~= now[0]);
            }
        }
        i += 1;
    }
    assert(texts(parts@).take(i as int) =~= texts(parts@));
    r
}

/// `s` if it has at most `max` characters; else its first `max - 3`
/// characters followed by three dots.
pub open spec fn clipped(s: Seq<char>, max: int) -> Seq<char> {
    if s.len() > max {
        s.take(max - 3) + "..."@
    } else {
        s
    }
}

/// Computes `clipped`.
pub fn clip_text(s: String, max: usize) -> (r: String)
    requires
        max >= 3,
    ensures
        r@ == clipped(s@, max as int),
{
    let v = to_chars(s.as_str());
    if v.len() > max {
        let mut r = from_chars(&v, 0, max - 3);
        r.append("...");
        r
    } else {
        s
    }
}

// ---------------------------------------------------------------------------
// Lexicographic order
// ---------------------------------------------------------------------------

/// Whether `a` stands before `b` in the lexicographic order of their
/// characters' code points.
pub open spec fn lex_lt(a: Seq<char>, b: Seq<char>) -> bool
    decreases a.len(),
{
    if b.len() == 0 {
        false
    } else if a.len() == 0 {
        true
    } else if a[0] != b[0] {
        (a[0] as u32) < (b[0] as u32)
    } else {
        lex_lt(a.drop_first(), b.drop_first())
    }
}

/// No text stands before itself.
pub proof fn lemma_lex_irreflexive(a: Seq<char>)
    ensures
        !lex_lt(a, a),
    decreases a.len(),
{
    if a.len() > 0 {
        lemma_lex_irreflexive(a.drop_first());
    }
}

/// The order is transitive.
pub proof fn lemma_lex_transitive(a: Seq<char>, b: Seq<char>, c: Seq<char>)
    requires
        lex_lt(a, b),
        lex_lt(b, c),
    ensures
        lex_lt(a, c),
    decreases a.len(),
{
    if a.len() > 0 && b.len() > 0 && c.len() > 0 {
        if a[0] == b[0] && b[0] == c[0] {
            lemma_lex_transitive(a.drop_first(), b.drop_first(), c.drop_first());
        }
    }
}

/// Of two different texts one stands before the other.
pub proof fn lemma_lex_total(a: Seq<char>, b: Seq<char>)
    ensures
        lex_lt(a, b) || lex_lt(b, a) || a == b,
    decreases a.len(),
{
    if a.len() == 0 || b.len() == 0 {
        if a.len() == 0 && b.len() == 0 {
            assert(a =~= b);
        }
    } else if a[0] == b[0] {
        lemma_lex_total(a.drop_first(), b.drop_first());
        if a.drop_first() == b.drop_first() {
            assert(a =~= seq![a[0]] + a.drop_first());
            assert(b =~= seq![b[0]] + b.drop_first());
        }
    } else {
        char_u32_cast(a[0], a[0] as u32);
        char_u32_cast(b[0], b[0] as u32);
    }
}

proof fn lemma_lex_skip(a: Seq<char>, b: Seq<char>, k: int)
    requires
        0 <= k <= a.len(),
        k <= b.len(),
        forall|i: int| 0 <= i < k ==> a[i] == b[i],
    ensures
        lex_lt(a, b) == lex_lt(a.skip(k), b.skip(k)),
    decreases k,
{
    if k == 0 {
        assert(a.skip(0) =~= a);
        assert(b.skip(0) =~= b);
    } else {
        assert(a[0] == b[0]);
        let x = a.drop_first();
        let y = b.drop_first();
        assert forall|i: int| 0 <= i < k - 1 implies x[i] == y[i] by {
            assert(x[i] == a[i + 1]);
            assert(y[i] == b[i + 1]);
        }
        lemma_lex_skip(x, y, k - 1);
        assert(x.skip(k - 1) =~= a.skip(k));
        assert(y.skip(k - 1) =~= b.skip(k));
    }
}

/// Decides `lex_lt`.
pub fn text_before(a: &str, b: &str) -> (r: bool)
    ensures
        r == lex_lt(a@, b@),
{
    let x = to_chars(a);
    let y = to_chars(b);
    let mut i: usize = 0;
    while i < x.len() && i < y.len() && x[i] == y[i]
        invariant
            i <= x.len(),
            i <= y.len(),
            forall|j: int| 0 <= j < i ==> x@[j] == y@[j],
        decreases x.len() - i,
    {
        i += 1;
    }
    proof {
        lemma_lex_skip(x@, y@, i as int);
        let p = x@.skip(i as int);
        let q = y@.skip(i as int);
        if p.len() > 0 && q.len() > 0 {
            assert(p[0] == x@[i as int]);
            assert(q[0] == y@[i as int]);
        }
    }
    if i >= y.len() {
        false
    } else if i >= x.len() {
        true
    } else {
        (x[i] as u32) < (y[i] as u32)
    }
}

} // verus!
