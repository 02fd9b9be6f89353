//! Small text building blocks: decimal and hexadecimal digits, and
//! trimming of Unicode white space.

use vstd::prelude::*;

verus! {

/// Whether `c` carries the Unicode `White_Space` property: the tab,
/// line feed, vertical tab, form feed and carriage return, the space, the
/// next-line mark, the no-break space, the Ogham space mark, the en quad
/// through the hair space, the line and paragraph separators, the narrow
/// no-break space, the medium mathematical space and the ideographic
/// space.
pub open spec fn is_white_space(c: char) -> bool {
    let n = c as u32;
    ||| 0x09 <= n <= 0x0d
    ||| n == 0x20
    ||| n == 0x85
    ||| n == 0xa0
    ||| n == 0x1680
    ||| 0x2000 <= n <= 0x200a
    ||| n == 0x2028
    ||| n == 0x2029
    ||| n == 0x202f
    ||| n == 0x205f
    ||| n == 0x3000
}

/// Calls `char::is_whitespace`, which its documentation says returns true
/// exactly when the character has the Unicode `White_Space` property; the
/// contract spells that set of characters out.
#[verifier::external_body]
fn char_is_whitespace(c: char) -> (b: bool)
    ensures
        b == is_white_space(c),
{
    c.is_whitespace()
}

/// Calls `String::push`, which appends one character at the end.
#[verifier::external_body]
pub(crate) fn push_char(s: &mut String, c: char)
    ensures
        final(s)@ == old(s)@.push(c),
{
    s.push(c)
}

/// The ASCII character of a digit value below sixteen, lower case above nine.
pub open spec fn digit_char(d: int) -> char {
    if d < 10 {
        (('0' as int) + d) as char
    } else {
        (('a' as int) + (d - 10)) as char
    }
}

/// Decimal digits of `n`, most significant first, without leading zeros.
pub open spec fn spec_decimal(n: nat) -> Seq<char>
    decreases n,
{
    if n < 10 {
        seq![digit_char(n as int)]
    } else {
        spec_decimal(n / 10).push(digit_char((n % 10) as int))
    }
}

/// Decimal digits of `n`, with a leading minus sign when it is negative.
pub open spec fn spec_signed_decimal(n: int) -> Seq<char> {
    if n < 0 {
        seq!['-'] + spec_decimal((-n) as nat)
    } else {
        spec_decimal(n as nat)
    }
}

/// `s` right-aligned in a field of `width` characters: spaces go in front
/// of a shorter text, a longer one is left as it is.
pub open spec fn spec_pad_left(s: Seq<char>, width: nat) -> Seq<char> {
    if s.len() < width {
        Seq::new((width - s.len()) as nat, |i: int| ' ') + s
    } else {
        s
    }
}

/// The four lower-case hexadecimal digits of `v`, most significant first
/// (the text of `format!("{:04x}", v)`).
pub open spec fn spec_hex4(v: u16) -> Seq<char> {
    seq![
        digit_char((v as int / 4096) % 16),
        digit_char((v as int / 256) % 16),
        digit_char((v as int / 16) % 16),
        digit_char(v as int % 16),
    ]
}

/// `s` without its leading white space.
pub open spec fn trim_start(s: Seq<char>) -> Seq<char>
    decreases s.len(),
{
    if s.len() > 0 && is_white_space(s[0]) {
        trim_start(s.drop_first())
    } else {
        s
    }
}

/// `s` without its trailing white space.
pub open spec fn trim_end(s: Seq<char>) -> Seq<char>
    decreases s.len(),
{
    if s.len() > 0 && is_white_space(s.last()) {
        trim_end(s.drop_last())
    } else {
        s
    }
}

/// `s` without leading and trailing white space (what `str::trim` gives).
pub open spec fn spec_trim(s: Seq<char>) -> Seq<char> {
    trim_end(trim_start(s))
}

proof fn lemma_trim_start_first(s: Seq<char>)
    ensures
        trim_start(s).len() > 0 ==> !is_white_space(trim_start(s)[0]),
    decreases s.len(),
{
    if s.len() > 0 && is_white_space(s[0]) {
        lemma_trim_start_first(s.drop_first());
    }
}

proof fn lemma_trim_end_prefix(s: Seq<char>)
    ensures
        trim_end(s).len() <= s.len(),
        trim_end(s) == s.take(trim_end(s).len() as int),
        trim_end(s).len() > 0 ==> !is_white_space(trim_end(s).last()),
    decreases s.len(),
{
    if s.len() > 0 && is_white_space(s.last()) {
        let t = s.drop_last();
        lemma_trim_end_prefix(t);
        assert(t.take(trim_end(t).len() as int) =~= s.take(trim_end(t).len() as int));
    } else {
        assert(s.take(s.len() as int) =~= s);
    }
}

/// A trimmed text neither begins nor ends with white space.
pub proof fn lemma_trim_no_surrounding_white_space(s: Seq<char>)
    ensures
        spec_trim(s).len() > 0 ==> !is_white_space(spec_trim(s)[0]) && !is_white_space(
            spec_trim(s).last(),
        ),
{
    let u = trim_start(s);
    lemma_trim_start_first(s);
    lemma_trim_end_prefix(u);
    let t = trim_end(u);
    if t.len() > 0 {
        assert(t[0] == u.take(t.len() as int)[0]);
    }
}

proof fn lemma_trim_start_all_white_space(w: Seq<char>)
    requires
        forall|k: int| 0 <= k < w.len() ==> is_white_space(#[trigger] w[k]),
    ensures
        trim_start(w) == Seq::<char>::empty(),
{
    lemma_trim_start_skip(w, w.len() as int);
    assert(w.skip(w.len() as int) =~= Seq::<char>::empty());
}

proof fn lemma_trim_start_append_white_space(s: Seq<char>, w: Seq<char>)
    requires
        forall|k: int| 0 <= k < w.len() ==> is_white_space(#[trigger] w[k]),
    ensures
        trim_start(s + w) == if trim_start(s).len() == 0 {
            Seq::<char>::empty()
        } else {
            trim_start(s) + w
        },
    decreases s.len(),
{
    if s.len() == 0 {
        assert(s + w =~= w);
        lemma_trim_start_all_white_space(w);
    } else if is_white_space(s[0]) {
        assert((s + w).drop_first() =~= s.drop_first() + w);
        lemma_trim_start_append_white_space(s.drop_first(), w);
    } else {
        assert((s + w)[0] == s[0]);
    }
}

/// White space added at the end of a text, such as a line ending, does
/// not change what trimming it gives.
pub proof fn lemma_trim_ignores_trailing_white_space(s: Seq<char>, w: Seq<char>)
    requires
        forall|k: int| 0 <= k < w.len() ==> is_white_space(#[trigger] w[k]),
    ensures
        spec_trim(s + w) == spec_trim(s),
{
    lemma_trim_start_append_white_space(s, w);
    let u = trim_start(s);
    if u.len() > 0 {
        let x = u + w;
        assert forall|k: int| u.len() <= k < x.len() implies is_white_space(#[trigger] x[k]) by {
            assert(x[k] == w[k - u.len()]);
        }
        lemma_trim_end_take(x, u.len() as int);
        assert(x.take(u.len() as int) =~= u);
    }
}

/// Trimming twice gives what trimming once gives.
pub proof fn lemma_trim_idempotent(s: Seq<char>)
    ensures
        spec_trim(spec_trim(s)) == spec_trim(s),
{
    lemma_trim_no_surrounding_white_space(s);
    let t = spec_trim(s);
    assert(trim_start(t) == t);
    assert(trim_end(t) == t);
}

fn digit(d: u32) -> (c: char)
    requires
        d < 16,
    ensures
        c == digit_char(d as int),
{
    if d < 10 {
        ((48 + d) as u8) as char
    } else {
        ((87 + d) as u8) as char
    }
}

/// Decimal text of `n`, as `format!("{}", n)` writes it.
pub fn decimal(n: u64) -> (s: String)
    ensures
        s@ == spec_decimal(n as nat),
    decreases n,
{
    if n < 10 {
        let mut s = String::new();
        push_char(&mut s, digit(n as u32));
        s
    } else {
        let mut s = decimal(n / 10);
        push_char(&mut s, digit((n % 10) as u32));
        s
    }
}

/// Decimal text of `n`, as `format!("{}", n)` writes it.
pub fn signed_decimal(n: i32) -> (s: String)
    ensures
        s@ == spec_signed_decimal(n as int),
{
    if n < 0 {
        let magnitude: u64 = (0i64 - n as i64) as u64;
        let digits = decimal(magnitude);
        let mut s = String::from_str("-");
        proof {
            reveal_strlit("-");
        }
        s.append(digits.as_str());
        assert(s@ =~= seq!['-'] + spec_decimal((-n) as nat));
        s
    } else {
        decimal(n as u64)
    }
}

/// `s` right-aligned in a field of `width` characters, as
/// `format!("{:>width$}", s)` writes it.
pub fn pad_left(s: &str, width: usize) -> (t: String)
    ensures
        t@ == spec_pad_left(s@, width as nat),
{
    let n = s.unicode_len();
    let mut t = String::new();
    if n < width {
        let mut k: usize = 0;
        while k < width - n
            invariant
                n < width,
                k <= width - n,
                t@ == Seq::new(k as nat, |i: int| ' '),
            decreases width - n - k,
        {
            push_char(&mut t, ' ');
            k = k + 1;
            assert(t@ =~= Seq::new(k as nat, |i: int| ' '));
        }
    }
    t.append(s);
    proof {
        if n >= width {
            assert(t@ =~= s@);
        }
    }
    t
}

/// Four lower-case hexadecimal digits of `v`, as `format!("{:04x}", v)`
/// writes them.
pub fn hex4(v: u16) -> (s: String)
    ensures
        s@ == spec_hex4(v),
{
    let mut s = String::new();
    push_char(&mut s, digit(((v / 4096) % 16) as u32));
    push_char(&mut s, digit(((v / 256) % 16) as u32));
    push_char(&mut s, digit(((v / 16) % 16) as u32));
    push_char(&mut s, digit((v % 16) as u32));
    s
}


/// Skipping a run of white space at the front does not change what
/// `trim_start` gives.
proof fn lemma_trim_start_skip(s: Seq<char>, i: int)
    requires
        0 <= i <= s.len(),
        forall|k: int| 0 <= k < i ==> is_white_space(#[trigger] s[k]),
    ensures
        trim_start(s) == trim_start(s.skip(i)),
    decreases i,
{
    if i > 0 {
        assert(is_white_space(s[0]));
        let t = s.drop_first();
        assert forall|k: int| 0 <= k < i - 1 implies is_white_space(#[trigger] t[k]) by {
            assert(t[k] == s[k + 1]);
        }
        lemma_trim_start_skip(t, i - 1);
        assert(t.skip(i - 1) =~= s.skip(i));
    } else {
        assert(s.skip(0) =~= s);
    }
}

/// Dropping a run of white space at the back does not change what
/// `trim_end` gives.
proof fn lemma_trim_end_take(s: Seq<char>, j: int)
    requires
        0 <= j <= s.len(),
        forall|k: int| j <= k < s.len() ==> is_white_space(#[trigger] s[k]),
    ensures
        trim_end(s) == trim_end(s.take(j)),
    decreases s.len() - j,
{
    if j < s.len() {
        assert(is_white_space(s.last()));
        let t = s.drop_last();
        assert forall|k: int| j <= k < t.len() implies is_white_space(#[trigger] t[k]) by {
            assert(t[k] == s[k]);
        }
        lemma_trim_end_take(t, j);
        assert(t.take(j) =~= s.take(j));
    } else {
        assert(s.take(j) =~= s);
    }
}

/// `s` without leading and trailing Unicode white space, as `str::trim`
/// gives it.
pub fn trim(s: &str) -> (t: String)
    ensures
        t@ == spec_trim(s@),
{
    let n = s.unicode_len();
    let mut i: usize = 0;
    while i < n && char_is_whitespace(s.get_char(i))
        invariant
            n == s@.len(),
            i <= n,
            forall|k: int| 0 <= k < i ==> is_white_space(#[trigger] s@[k]),
        decreases n - i,
    {
        i = i + 1;
    }
    proof {
        lemma_trim_start_skip(s@, i as int);
    }
    let ghost u = s@.skip(i as int);
    assert(trim_start(u) == u);
    let mut j: usize = n;
    while j > i && char_is_whitespace(s.get_char(j - 1))
        invariant
            n == s@.len(),
            i <= j <= n,
            u == s@.skip(i as int),
            forall|k: int| j <= k < n ==> is_white_space(#[trigger] s@[k]),
        decreases j - i,
    {
        j = j - 1;
    }
    proof {
        assert forall|k: int| j - i <= k < u.len() implies is_white_space(#[trigger] u[k]) by {
            assert(u[k] == s@[k + i]);
        }
        lemma_trim_end_take(u, j - i);
        let v = u.take(j - i);
        if v.len() > 0 {
            assert(v.last() == s@[j - 1]);
        }
        assert(trim_end(v) == v);
        assert(v =~= s@.subrange(i as int, j as int));
    }
    let piece = s.substring_char(i, j);
    String::from_str(piece)
}


/// Whether `c` is one of the decimal digits `0` to `9`.
pub open spec fn is_decimal_digit(c: char) -> bool {
    48 <= c as u32 <= 57
}

/// Whether `c` is one of the lower-case hexadecimal digits `0` to `9`,
/// `a` to `f`.
pub open spec fn is_lower_hex_digit(c: char) -> bool {
    is_decimal_digit(c) || 97 <= c as u32 <= 102
}

/// The number a decimal digit stands for.
pub open spec fn decimal_digit_value(c: char) -> int {
    c as u32 - 48
}

/// The number a lower-case hexadecimal digit stands for.
pub open spec fn hex_digit_value(c: char) -> int {
    if is_decimal_digit(c) {
        c as u32 - 48
    } else {
        c as u32 - 87
    }
}

/// The number a text of decimal digits stands for, read most significant
/// digit first.
pub open spec fn decimal_value(s: Seq<char>) -> int
    decreases s.len(),
{
    if s.len() == 0 {
        0
    } else {
        decimal_value(s.drop_last()) * 10 + decimal_digit_value(s.last())
    }
}

/// The decimal text of `n` is made of decimal digits only, reads back as
/// `n`, and has no leading zero (zero itself is the single digit `0`).
pub proof fn lemma_decimal_reads_back(n: nat)
    ensures
        spec_decimal(n).len() > 0,
        forall|k: int| 0 <= k < spec_decimal(n).len() ==> is_decimal_digit(#[trigger] spec_decimal(n)[k]),
        decimal_value(spec_decimal(n)) == n,
        n == 0 ==> spec_decimal(n) == seq!['0'],
        n > 0 ==> spec_decimal(n)[0] != '0',
    decreases n,
{
    if n >= 10 {
        let q = n / 10;
        let r = n % 10;
        lemma_decimal_reads_back(q);
        let s = spec_decimal(n);
        assert(s.drop_last() =~= spec_decimal(q));
        assert(s.last() == digit_char(r as int));
        assert(decimal_digit_value(digit_char(r as int)) == r);
        assert(decimal_value(s) == decimal_value(spec_decimal(q)) * 10 + r);
        assert(q * 10 + r == n);
        assert(s[0] == spec_decimal(q)[0]);
        assert forall|k: int| 0 <= k < s.len() implies is_decimal_digit(#[trigger] s[k]) by {
            if k < s.len() - 1 {
                assert(s[k] == spec_decimal(q)[k]);
            }
        }
    } else {
        let s = spec_decimal(n);
        assert(s.drop_last() =~= Seq::<char>::empty());
        assert(decimal_value(s.drop_last()) == 0);
        assert(decimal_digit_value(digit_char(n as int)) == n);
    }
}

/// Two numbers have the same decimal text only when they are equal.
pub proof fn lemma_decimal_injective(m: nat, n: nat)
    requires
        spec_decimal(m) == spec_decimal(n),
    ensures
        m == n,
{
    lemma_decimal_reads_back(m);
    lemma_decimal_reads_back(n);
}

/// The signed decimal text of `n` is its magnitude's digits, after a
/// minus sign exactly when `n` is negative.
pub proof fn lemma_signed_decimal_reads_back(n: int)
    ensures
        ({
            let s = spec_signed_decimal(n);
            let digits = if n < 0 { s.drop_first() } else { s };
            &&& n < 0 ==> s.len() > 0 && s[0] == '-'
            &&& digits.len() > 0
            &&& forall|k: int| 0 <= k < digits.len() ==> is_decimal_digit(#[trigger] digits[k])
            &&& decimal_value(digits) == if n < 0 { -n } else { n }
        }),
{
    if n < 0 {
        lemma_decimal_reads_back((-n) as nat);
        let s = spec_signed_decimal(n);
        assert(s.drop_first() =~= spec_decimal((-n) as nat));
    } else {
        lemma_decimal_reads_back(n as nat);
    }
}

/// Right alignment keeps the text whole at the end of the field and puts
/// only spaces in front, as many as the width asks for beyond the text.
pub proof fn lemma_pad_left_shape(s: Seq<char>, width: nat)
    ensures
        ({
            let t = spec_pad_left(s, width);
            &&& t.len() == if s.len() < width { width as int } else { s.len() as int }
            &&& t.skip(t.len() - s.len()) == s
            &&& forall|k: int| 0 <= k < t.len() - s.len() ==> #[trigger] t[k] == ' '
        }),
{
    let t = spec_pad_left(s, width);
    assert(t.skip(t.len() - s.len()) =~= s);
}

/// The four characters of `spec_hex4(v)` are lower-case hexadecimal
/// digits that read back as `v`, most significant first.
pub proof fn lemma_hex4_reads_back(v: u16)
    ensures
        spec_hex4(v).len() == 4,
        forall|k: int| 0 <= k < 4 ==> is_lower_hex_digit(#[trigger] spec_hex4(v)[k]),
        4096 * hex_digit_value(spec_hex4(v)[0]) + 256 * hex_digit_value(spec_hex4(v)[1]) + 16
            * hex_digit_value(spec_hex4(v)[2]) + hex_digit_value(spec_hex4(v)[3]) == v,
{
    let x = v as int;
    assert(x == 4096 * ((x / 4096) % 16) + 256 * ((x / 256) % 16) + 16 * ((x / 16) % 16) + x % 16)
        by (nonlinear_arith)
        requires
            0 <= x < 65536,
    ;
}

/// Two values have the same four hexadecimal digits only when they are
/// equal.
pub proof fn lemma_hex4_injective(u: u16, v: u16)
    requires
        spec_hex4(u) == spec_hex4(v),
    ensures
        u == v,
{
    lemma_hex4_reads_back(u);
    lemma_hex4_reads_back(v);
}

/// A text that neither begins nor ends with white space is left as it is
/// by trimming, whatever its length.
pub proof fn lemma_trim_keeps_unpadded_text(s: Seq<char>)
    requires
        s.len() == 0 || (!is_white_space(s[0]) && !is_white_space(s.last())),
    ensures
        spec_trim(s) == s,
{
}

proof fn lemma_trim_start_is_skip(s: Seq<char>) -> (i: int)
    ensures
        0 <= i <= s.len(),
        trim_start(s) == s.skip(i),
        forall|k: int| 0 <= k < i ==> is_white_space(#[trigger] s[k]),
    decreases s.len(),
{
    if s.len() > 0 && is_white_space(s[0]) {
        let t = s.drop_first();
        let i0 = lemma_trim_start_is_skip(t);
        assert(t.skip(i0) =~= s.skip(i0 + 1));
        assert forall|k: int| 0 <= k < i0 + 1 implies is_white_space(#[trigger] s[k]) by {
            if k > 0 {
                assert(s[k] == t[k - 1]);
            }
        }
        i0 + 1
    } else {
        assert(s.skip(0) =~= s);
        0
    }
}

proof fn lemma_trim_end_is_take(s: Seq<char>) -> (j: int)
    ensures
        0 <= j <= s.len(),
        trim_end(s) == s.take(j),
        forall|k: int| j <= k < s.len() ==> is_white_space(#[trigger] s[k]),
    decreases s.len(),
{
    if s.len() > 0 && is_white_space(s.last()) {
        let t = s.drop_last();
        let j0 = lemma_trim_end_is_take(t);
        assert(t.take(j0) =~= s.take(j0));
        assert forall|k: int| j0 <= k < s.len() implies is_white_space(#[trigger] s[k]) by {
            if k < s.len() - 1 {
                assert(s[k] == t[k]);
            }
        }
        j0
    } else {
        assert(s.take(s.len() as int) =~= s);
        s.len() as int
    }
}

/// Trimming removes white space only: the result is the piece of the
/// input between some `i` and `j`, with only white space before `i` and
/// from `j` on.
pub proof fn lemma_trim_is_inner_piece(s: Seq<char>)
    ensures
        exists|i: int, j: int|
            0 <= i <= j <= s.len() && spec_trim(s) == s.subrange(i, j) && (forall|k: int|
                0 <= k < i ==> is_white_space(#[trigger] s[k])) && (forall|k: int|
                j <= k < s.len() ==> is_white_space(#[trigger] s[k])),
{
    let i = lemma_trim_start_is_skip(s);
    let u = s.skip(i);
    let j0 = lemma_trim_end_is_take(u);
    let j = i + j0;
    assert(u.take(j0) =~= s.subrange(i, j));
    assert forall|k: int| j <= k < s.len() implies is_white_space(#[trigger] s[k]) by {
        assert(s[k] == u[k - i]);
    }
    assert(spec_trim(s) == s.subrange(i, j));
}

} // verus!
