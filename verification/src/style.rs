//! Decoding of style declaration strings.
//!
//! A style declaration is a `;`-separated list of `key:value` segments.
//! The recognized keys are the pen-width marker and `color`; every other
//! key is ignored for forward compatibility.

use vstd::prelude::*;

use crate::text::{find_from, split_on, trim, is_space, lemma_find_from, lemma_find_from_skip,
    lemma_find_none, lemma_find_append_miss, lemma_find_append_hit, lemma_trim_of_trimmed,
    find_char, str_eq, trim_str};

verus! {

/// The error taxonomy of the reconstruction pipeline. Every variant is
/// fatal for the page being processed.
#[derive(Clone, Copy, Debug, PartialEq, Eq, Structural)]
pub enum PipelineError {
    /// A style segment has fewer than two `:`-separated fields.
    MalformedStyle,
    /// A pen-width value is not a valid floating-point literal.
    InvalidPenWidth,
    /// A color value is not `#` followed by eight hex digits.
    InvalidColor,
    /// A stroke item's coordinate/pressure arrays are empty or of unequal
    /// lengths.
    EmptyOrMismatchedArrays,
    /// A point path that the output representation cannot hold. The
    /// point-list model of this crate holds every non-empty path, so this
    /// is reported only by the application layer when the document sink
    /// rejects a path.
    DegeneratePath,
    /// A line item appears in an element that carries no style.
    MissingStyleForLine,
    /// An item carries a type tag outside the supported set.
    UnsupportedItemType,
    /// An image element names an asset that the asset directory lacks.
    AssetNotFound,
    /// The asset collaborator failed to decode an asset's bytes. Reported
    /// only by the application layer, which owns the decoder.
    AssetDecodeFailed,
}

/// Whether `c` is an ASCII hexadecimal digit.
pub open spec fn is_hex_digit(c: char) -> bool {
    (48 <= c as u32 && c as u32 <= 57)  // '0'..'9'
    || (97 <= c as u32 && c as u32 <= 102)  // 'a'..'f'
    || (65 <= c as u32 && c as u32 <= 70)  // 'A'..'F'
}

/// The numeric value of a hexadecimal digit.
pub open spec fn hex_val(c: char) -> u8 {
    if 48 <= c as u32 && c as u32 <= 57 {
        (c as u32 - 48) as u8
    } else if 97 <= c as u32 && c as u32 <= 102 {
        (c as u32 - 87) as u8
    } else {
        (c as u32 - 55) as u8
    }
}

/// The byte encoded by the two hex digits of `s` at `i` and `i + 1`.
pub open spec fn hex_byte_at(s: Seq<char>, i: int) -> u8
    recommends
        0 <= i && i + 1 < s.len(),
        is_hex_digit(s[i]),
        is_hex_digit(s[i + 1]),
{
    (hex_val(s[i]) * 16 + hex_val(s[i + 1])) as u8
}

/// Whether `s` is a valid color literal: `#` followed by eight hex digits.
pub open spec fn valid_color(s: Seq<char>) -> bool {
    s.len() == 9 && s[0] == '#' && forall|i: int| 1 <= i < 9 ==> is_hex_digit(#[trigger] s[i])
}

/// The RGBA bytes of a valid color literal.
pub open spec fn color_of(s: Seq<char>) -> (u8, u8, u8, u8)
    recommends
        valid_color(s),
{
    (hex_byte_at(s, 1), hex_byte_at(s, 3), hex_byte_at(s, 5), hex_byte_at(s, 7))
}

/// Decodes a hexadecimal digit; the flag reports whether `c` was one.
fn hex_digit(c: char) -> (r: (bool, u8))
    ensures
        r.0 == is_hex_digit(c),
        r.0 ==> r.1 == hex_val(c),
{
    let u = c as u32;
    if 48 <= u && u <= 57 {
        (true, (u - 48) as u8)
    } else if 97 <= u && u <= 102 {
        (true, (u - 87) as u8)
    } else if 65 <= u && u <= 70 {
        (true, (u - 55) as u8)
    } else {
        (false, 0)
    }
}

/// Decodes an RGBA color from a `#RRGGBBAA` literal: exactly nine
/// characters, a leading `#`, then four two-digit hexadecimal groups.
/// Anything else is rejected.
pub fn get_color_from_hex(s: String) -> (r: Result<(u8, u8, u8, u8), ()>)
    ensures
        r is Ok <==> valid_color(s@),
        r is Ok ==> r->Ok_0 == color_of(s@),
{
    let st = s.as_str();
    if st.unicode_len() != 9 {
        return Err(());
    }
    if st.get_char(0) != '#' {
        return Err(());
    }
    let mut bytes: [u8; 4] = [0, 0, 0, 0];
    let mut k: usize = 0;
    while k < 4
        invariant
            0 <= k <= 4,
            st@ == s@,
            s@.len() == 9,
            s@[0] == '#',
            forall|i: int| 1 <= i < 1 + 2 * k ==> is_hex_digit(#[trigger] s@[i]),
            forall|j: int| 0 <= j < k ==> bytes[j] == hex_byte_at(s@, 1 + 2 * j),
        decreases 4 - k,
    {
        let (ok_hi, hi) = hex_digit(st.get_char(1 + 2 * k));
        let (ok_lo, lo) = hex_digit(st.get_char(2 + 2 * k));
        if !ok_hi || !ok_lo {
            return Err(());
        }
        bytes[k] = hi * 16 + lo;
        k = k + 1;
    }
    Ok((bytes[0], bytes[1], bytes[2], bytes[3]))
}

/// Whether `c` is an ASCII decimal digit.
pub open spec fn is_digit(c: char) -> bool {
    48 <= c as u32 && c as u32 <= 57
}

/// The number of decimal digits in `s`.
pub open spec fn digits_in(s: Seq<char>) -> nat
    decreases s.len(),
{
    if s.len() == 0 {
        0
    } else {
        digits_in(s.drop_last()) + (if is_digit(s.last()) {
            1nat
        } else {
            0nat
        })
    }
}

/// The number of `.` characters in `s`.
pub open spec fn dots_in(s: Seq<char>) -> nat
    decreases s.len(),
{
    if s.len() == 0 {
        0
    } else {
        dots_in(s.drop_last()) + (if s.last() == '.' {
            1nat
        } else {
            0nat
        })
    }
}

/// Whether `c` is `lo` or `up` (one letter, either case).
pub open spec fn ci(c: char, lo: char, up: char) -> bool {
    c == lo || c == up
}

/// Whether `t` is `inf`, `infinity` or `nan`, in any letter case.
pub open spec fn special_ok(t: Seq<char>) -> bool {
    (t.len() == 3 && ci(t[0], 'i', 'I') && ci(t[1], 'n', 'N') && ci(t[2], 'f', 'F')) || (t.len()
        == 8 && ci(t[0], 'i', 'I') && ci(t[1], 'n', 'N') && ci(t[2], 'f', 'F') && ci(
        t[3],
        'i',
        'I',
    ) && ci(t[4], 'n', 'N') && ci(t[5], 'i', 'I') && ci(t[6], 't', 'T') && ci(t[7], 'y', 'Y')) || (
    t.len() == 3 && ci(t[0], 'n', 'N') && ci(t[1], 'a', 'A') && ci(t[2], 'n', 'N'))
}

/// The least index `>= i` of an exponent marker `e`/`E`, or `s.len()`.
pub open spec fn exp_pos(s: Seq<char>, i: int) -> int
    decreases s.len() - i when 0 <= i <= s.len()
{
    if i >= s.len() {
        s.len() as int
    } else if s[i] == 'e' || s[i] == 'E' {
        i
    } else {
        exp_pos(s, i + 1)
    }
}

/// Whether `m` is a valid mantissa: digits with at most one `.` and at
/// least one digit.
pub open spec fn mantissa_ok(m: Seq<char>) -> bool {
    digits_in(m) >= 1 && dots_in(m) <= 1 && forall|i: int|
        0 <= i < m.len() ==> is_digit(#[trigger] m[i]) || m[i] == '.'
}

/// Whether `x` is a valid exponent: an optional sign, then at least one
/// digit and nothing else.
pub open spec fn exp_ok(x: Seq<char>) -> bool {
    if x.len() > 0 && (x[0] == '+' || x[0] == '-') {
        x.len() >= 2 && forall|i: int| 1 <= i < x.len() ==> is_digit(#[trigger] x[i])
    } else {
        x.len() >= 1 && forall|i: int| 0 <= i < x.len() ==> is_digit(#[trigger] x[i])
    }
}

/// Whether `t` is a decimal number: a mantissa, then optionally an
/// exponent marker and an exponent.
pub open spec fn number_ok(t: Seq<char>) -> bool {
    let e = exp_pos(t, 0);
    mantissa_ok(t.take(e)) && (e == t.len() || exp_ok(t.skip(e + 1)))
}

/// Whether `s` is a floating-point literal in the syntax the standard
/// numeric parser accepts: an optional sign, then `inf`, `infinity` or
/// `nan` in any letter case, or a decimal number with optional fraction
/// and exponent.
pub open spec fn float_ok(s: Seq<char>) -> bool {
    let t = if s.len() > 0 && (s[0] == '+' || s[0] == '-') {
        s.skip(1)
    } else {
        s
    };
    special_ok(t) || number_ok(t)
}

/// Whether `c` is a decimal digit.
fn is_digit_char(c: char) -> (r: bool)
    ensures
        r == is_digit(c),
{
    let u = c as u32;
    48 <= u && u <= 57
}

/// Whether `t` spells `inf`, `infinity` or `nan` in any letter case.
fn check_special(t: &str) -> (r: bool)
    ensures
        r == special_ok(t@),
{
    let n = t.unicode_len();
    if n == 3 {
        let c0 = t.get_char(0);
        let c1 = t.get_char(1);
        let c2 = t.get_char(2);
        ((c0 == 'i' || c0 == 'I') && (c1 == 'n' || c1 == 'N') && (c2 == 'f' || c2 == 'F')) || ((c0
            == 'n' || c0 == 'N') && (c1 == 'a' || c1 == 'A') && (c2 == 'n' || c2 == 'N'))
    } else if n == 8 {
        let c0 = t.get_char(0);
        let c1 = t.get_char(1);
        let c2 = t.get_char(2);
        let c3 = t.get_char(3);
        let c4 = t.get_char(4);
        let c5 = t.get_char(5);
        let c6 = t.get_char(6);
        let c7 = t.get_char(7);
        (c0 == 'i' || c0 == 'I') && (c1 == 'n' || c1 == 'N') && (c2 == 'f' || c2 == 'F') && (c3
            == 'i' || c3 == 'I') && (c4 == 'n' || c4 == 'N') && (c5 == 'i' || c5 == 'I') && (c6
            == 't' || c6 == 'T') && (c7 == 'y' || c7 == 'Y')
    } else {
        false
    }
}

/// Whether `t` is a decimal number with optional fraction and exponent.
fn check_number(t: &str) -> (r: bool)
    ensures
        r == number_ok(t@),
{
    let n = t.unicode_len();
    let mut e: usize = 0;
    loop
        invariant
            0 <= e <= n,
            n as int == t@.len(),
            exp_pos(t@, 0) == exp_pos(t@, e as int),
        ensures
            0 <= e <= n,
            e as int == exp_pos(t@, 0),
        decreases n - e,
    {
        if e == n {
            break ;
        }
        let c = t.get_char(e);
        if c == 'e' || c == 'E' {
            break ;
        }
        e = e + 1;
    }
    let mut j: usize = 0;
    let mut dots: usize = 0;
    let mut has_digit = false;
    while j < e
        invariant
            0 <= j <= e <= n,
            n as int == t@.len(),
            e as int == exp_pos(t@, 0),
            dots as nat == dots_in(t@.take(j as int)),
            dots <= j,
            has_digit == (digits_in(t@.take(j as int)) >= 1),
            forall|i: int| 0 <= i < j ==> is_digit(#[trigger] t@[i]) || t@[i] == '.',
        decreases e - j,
    {
        let c = t.get_char(j);
        let d = is_digit_char(c);
        if !d && c != '.' {
            proof {
                assert(t@.take(e as int)[j as int] == t@[j as int]);
                assert(!mantissa_ok(t@.take(e as int)));
            }
            return false;
        }
        proof {
            assert(t@.take(j as int + 1).drop_last() =~= t@.take(j as int));
            assert(t@.take(j as int + 1).last() == t@[j as int]);
        }
        if c == '.' {
            dots = dots + 1;
        }
        if d {
            has_digit = true;
        }
        j = j + 1;
    }
    proof {
        assert(t@.take(e as int).len() == e as int);
        assert(forall|i: int|
            0 <= i < e ==> is_digit(#[trigger] t@.take(e as int)[i]) || t@.take(e as int)[i]
                == '.');
    }
    if !has_digit || dots > 1 {
        return false;
    }
    if e == n {
        return true;
    }
    let ghost x = t@.skip(e as int + 1);
    let mut k = e + 1;
    if k < n {
        let c = t.get_char(k);
        if c == '+' || c == '-' {
            k = k + 1;
        }
    }
    let ghost base = k as int;
    proof {
        if x.len() > 0 {
            assert(x[0] == t@[e as int + 1]);
        }
        if base == e + 2 {
            assert(x.skip(1) =~= t@.skip(base));
        } else {
            assert(x =~= t@.skip(base));
        }
    }
    if k == n {
        proof {
            assert(x.len() == n - base + (base - e - 1));
            assert(!exp_ok(x));
            assert(x == t@.skip(e as int + 1));
        }
        return false;
    }
    while k < n
        invariant
            0 <= base <= k <= n,
            e as int + 1 <= base <= e as int + 2,
            n as int == t@.len(),
            e as int == exp_pos(t@, 0),
            (e as int) < n as int,
            mantissa_ok(t@.take(e as int)),
            x =~= t@.skip(e as int + 1),
            (if x.len() > 0 && (x[0] == '+' || x[0] == '-') {
                x.skip(1)
            } else {
                x
            }) =~= t@.skip(base),
            forall|i: int| base <= i < k ==> is_digit(#[trigger] t@[i]),
        decreases n - k,
    {
        if !is_digit_char(t.get_char(k)) {
            proof {
                assert(x == t@.skip(e as int + 1));
                assert(t@.skip(e as int + 1)[k - (e as int + 1)] == t@[k as int]);
                assert(x[k - (e as int + 1)] == t@[k as int]);
                assert(!is_digit(x[k - (e as int + 1)]));
                assert(k - (e as int + 1) >= base - e - 1);
                assert(!exp_ok(x));
                assert(!number_ok(t@));
            }
            return false;
        }
        k = k + 1;
    }
    proof {
        assert(x == t@.skip(e as int + 1));
        assert forall|i: int| base - e - 1 <= i < x.len() implies is_digit(#[trigger] x[i]) by {
            assert(t@.skip(e as int + 1)[i] == t@[e as int + 1 + i]);
            assert(x[i] == t@[e as int + 1 + i]);
        }
        assert(x.len() >= n - base + (base - e - 1));
        assert(exp_ok(x));
        assert(x == t@.skip(e as int + 1));
    }
    true
}

/// Whether `v` is a floating-point literal.
pub fn is_float_literal(v: &str) -> (r: bool)
    ensures
        r == float_ok(v@),
{
    let n = v.unicode_len();
    let mut start: usize = 0;
    if n > 0 {
        let c = v.get_char(0);
        if c == '+' || c == '-' {
            start = 1;
        }
    }
    let t = v.substring_char(start, n);
    proof {
        assert(v@.subrange(start as int, n as int) =~= v@.skip(start as int));
        assert(v@.skip(0) =~= v@);
    }
    if check_special(t) {
        return true;
    }
    check_number(t)
}

/// A resolved visual style: the pen-width literal exactly as written in
/// the declaration (always a valid floating-point literal), and an RGBA
/// color.
#[derive(Debug, PartialEq, Eq)]
pub struct Style {
    pub pen_width: String,
    pub color: (u8, u8, u8, u8),
}

/// The mathematical view of a [`Style`].
pub struct StyleView {
    pub pen_width: Seq<char>,
    pub color: (u8, u8, u8, u8),
}

impl View for Style {
    type V = StyleView;

    open spec fn view(&self) -> StyleView {
        StyleView { pen_width: self.pen_width@, color: self.color }
    }
}

impl Clone for Style {
    fn clone(&self) -> (r: Self)
        ensures
            r@ == self@,
    {
        Style { pen_width: self.pen_width.clone(), color: self.color }
    }
}

/// The style of an element before any declaration is applied: pen width
/// `0`, transparent black.
pub open spec fn default_style() -> StyleView {
    StyleView { pen_width: seq!['0'], color: (0, 0, 0, 0) }
}

impl Default for Style {
    fn default() -> (r: Self)
        ensures
            r@ == default_style(),
    {
        let pw = String::from_str("0");
        proof {
            reveal_strlit("0");
            assert(pw@ =~= seq!['0']);
        }
        Style { pen_width: pw, color: (0, 0, 0, 0) }
    }
}

/// The effect of one `key:value` segment on a style. An empty segment is
/// skipped; a segment without `:` is malformed; the pen-width key demands
/// a floating-point literal; `color` demands `#` and eight hex digits;
/// every other key is ignored.
pub open spec fn apply_segment(st: StyleView, seg: Seq<char>) -> Result<
    StyleView,
    PipelineError,
> {
    if seg.len() == 0 {
        Ok(st)
    } else {
        let i = find_from(seg, ':', 0);
        if i >= seg.len() {
            Err(PipelineError::MalformedStyle)
        } else {
            let key = trim(seg.take(i));
            let value = trim(seg.skip(i + 1));
            if key == "-myscript-pen-width"@ {
                if float_ok(value) {
                    Ok(StyleView { pen_width: value, color: st.color })
                } else {
                    Err(PipelineError::InvalidPenWidth)
                }
            } else if key == "color"@ {
                if valid_color(value) {
                    Ok(StyleView { pen_width: st.pen_width, color: color_of(value) })
                } else {
                    Err(PipelineError::InvalidColor)
                }
            } else {
                Ok(st)
            }
        }
    }
}

/// The segments of a declaration applied left to right, starting from
/// `st`; the first failure wins.
pub open spec fn fold_segments(st: StyleView, segs: Seq<Seq<char>>) -> Result<
    StyleView,
    PipelineError,
>
    decreases segs.len(),
{
    if segs.len() == 0 {
        Ok(st)
    } else {
        match apply_segment(st, segs[0]) {
            Ok(st2) => fold_segments(st2, segs.drop_first()),
            Err(e) => Err(e),
        }
    }
}

/// What decoding a style declaration yields: the `;`-separated segments
/// applied, in order, to the default style.
pub open spec fn decode_style_spec(s: Seq<char>) -> Result<StyleView, PipelineError> {
    fold_segments(default_style(), split_on(s, ';'))
}

/// The view of a style-decoding result.
pub open spec fn style_result_view(r: Result<Style, PipelineError>) -> Result<
    StyleView,
    PipelineError,
> {
    match r {
        Ok(st) => Ok(st@),
        Err(e) => Err(e),
    }
}

/// Applies one segment to `st`.
fn apply_segment_exec(st: &mut Style, seg: &str) -> (r: Result<(), PipelineError>)
    ensures
        match r {
            Ok(_) => apply_segment(old(st)@, seg@) == Ok::<StyleView, PipelineError>(final(st)@),
            Err(e) => apply_segment(old(st)@, seg@) == Err::<StyleView, PipelineError>(e),
        },
{
    let len = seg.unicode_len();
    if len == 0 {
        return Ok(());
    }
    let ci = find_char(seg, ':', 0);
    if ci == len {
        return Err(PipelineError::MalformedStyle);
    }
    let key = trim_str(seg.substring_char(0, ci));
    let value = trim_str(seg.substring_char(ci + 1, len));
    proof {
        assert(seg@.subrange(0, ci as int) =~= seg@.take(ci as int));
        assert(seg@.subrange(ci as int + 1, len as int) =~= seg@.skip(ci as int + 1));
    }
    if str_eq(key, "-myscript-pen-width") {
        if is_float_literal(value) {
            st.pen_width = String::from_str(value);
            Ok(())
        } else {
            Err(PipelineError::InvalidPenWidth)
        }
    } else if str_eq(key, "color") {
        match get_color_from_hex(String::from_str(value)) {
            Ok(c) => {
                st.color = c;
                Ok(())
            },
            Err(_) => Err(PipelineError::InvalidColor),
        }
    } else {
        Ok(())
    }
}

/// Decodes a style declaration string: `;`-separated `key:value`
/// segments applied, in order, to the default style. Returns exactly
/// what [`decode_style_spec`] assigns to the input.
pub fn parse_style(s: &str) -> (r: Result<Style, PipelineError>)
    ensures
        style_result_view(r) == decode_style_spec(s@),
{
    let mut st = Style::default();
    let n = s.unicode_len();
    let mut pos: usize = 0;
    proof {
        assert(s@.skip(0) =~= s@);
    }
    loop
        invariant
            0 <= pos <= n,
            n as int == s@.len(),
            decode_style_spec(s@) == fold_segments(st@, split_on(s@.skip(pos as int), ';')),
        decreases n - pos,
    {
        let i = find_char(s, ';', pos);
        let seg = s.substring_char(pos, i);
        let ghost tail = s@.skip(pos as int);
        proof {
            lemma_find_from_skip(s@, ';', pos as int, pos as int);
            lemma_find_from(s@, ';', pos as int);
            if (i as int) < n as int {
                assert(tail.take(i - pos) =~= s@.subrange(pos as int, i as int));
                assert(tail.skip(i - pos + 1) =~= s@.skip(i as int + 1));
                assert(split_on(tail, ';') == seq![seg@] + split_on(s@.skip(i as int + 1), ';'));
                lemma_fold_segments_step(st@, seg@, split_on(s@.skip(i as int + 1), ';'));
            } else {
                assert(tail =~= s@.subrange(pos as int, i as int));
                assert(split_on(tail, ';') == seq![seg@]);
                lemma_fold_segments_one(st@, seg@);
            }
        }
        match apply_segment_exec(&mut st, seg) {
            Ok(_) => {},
            Err(e) => {
                return Err(e);
            },
        }
        if i == n {
            return Ok(st);
        }
        pos = i + 1;
    }
}

/// The uppercase hexadecimal digit with value `v`.
pub open spec fn hex_char_of(v: u8) -> char {
    if v == 0 {
        '0'
    } else if v == 1 {
        '1'
    } else if v == 2 {
        '2'
    } else if v == 3 {
        '3'
    } else if v == 4 {
        '4'
    } else if v == 5 {
        '5'
    } else if v == 6 {
        '6'
    } else if v == 7 {
        '7'
    } else if v == 8 {
        '8'
    } else if v == 9 {
        '9'
    } else if v == 10 {
        'A'
    } else if v == 11 {
        'B'
    } else if v == 12 {
        'C'
    } else if v == 13 {
        'D'
    } else if v == 14 {
        'E'
    } else {
        'F'
    }
}

/// The two uppercase hexadecimal digits of a byte.
pub open spec fn hex2(b: u8) -> Seq<char> {
    seq![hex_char_of(b / 16), hex_char_of(b % 16)]
}

/// The canonical `key:value;...` encoding of a style: the pen-width
/// literal, then the color as `#` and eight uppercase hex digits.
pub open spec fn encode_style_spec(st: StyleView) -> Seq<char> {
    "-myscript-pen-width:"@ + st.pen_width + ";color:#"@ + hex2(st.color.0) + hex2(st.color.1)
        + hex2(st.color.2) + hex2(st.color.3)
}

/// The one-character string holding the uppercase hex digit of value
/// `v`.
fn hex_char_str(v: u8) -> (r: &'static str)
    requires
        v < 16,
    ensures
        r@ == seq![hex_char_of(v)],
{
    if v == 0 {
        proof {
            reveal_strlit("0");
            assert("0"@ =~= seq![hex_char_of(v)]);
        }
        "0"
    } else if v == 1 {
        proof {
            reveal_strlit("1");
            assert("1"@ =~= seq![hex_char_of(v)]);
        }
        "1"
    } else if v == 2 {
        proof {
            reveal_strlit("2");
            assert("2"@ =~= seq![hex_char_of(v)]);
        }
        "2"
    } else if v == 3 {
        proof {
            reveal_strlit("3");
            assert("3"@ =~= seq![hex_char_of(v)]);
        }
        "3"
    } else if v == 4 {
        proof {
            reveal_strlit("4");
            assert("4"@ =~= seq![hex_char_of(v)]);
        }
        "4"
    } else if v == 5 {
        proof {
            reveal_strlit("5");
            assert("5"@ =~= seq![hex_char_of(v)]);
        }
        "5"
    } else if v == 6 {
        proof {
            reveal_strlit("6");
            assert("6"@ =~= seq![hex_char_of(v)]);
        }
        "6"
    } else if v == 7 {
        proof {
            reveal_strlit("7");
            assert("7"@ =~= seq![hex_char_of(v)]);
        }
        "7"
    } else if v == 8 {
        proof {
            reveal_strlit("8");
            assert("8"@ =~= seq![hex_char_of(v)]);
        }
        "8"
    } else if v == 9 {
        proof {
            reveal_strlit("9");
            assert("9"@ =~= seq![hex_char_of(v)]);
        }
        "9"
    } else if v == 10 {
        proof {
            reveal_strlit("A");
            assert("A"@ =~= seq![hex_char_of(v)]);
        }
        "A"
    } else if v == 11 {
        proof {
            reveal_strlit("B");
            assert("B"@ =~= seq![hex_char_of(v)]);
        }
        "B"
    } else if v == 12 {
        proof {
            reveal_strlit("C");
            assert("C"@ =~= seq![hex_char_of(v)]);
        }
        "C"
    } else if v == 13 {
        proof {
            reveal_strlit("D");
            assert("D"@ =~= seq![hex_char_of(v)]);
        }
        "D"
    } else if v == 14 {
        proof {
            reveal_strlit("E");
            assert("E"@ =~= seq![hex_char_of(v)]);
        }
        "E"
    } else {
        proof {
            reveal_strlit("F");
            assert("F"@ =~= seq![hex_char_of(v)]);
        }
        "F"
    }
}

/// Re-encodes a style in the canonical `key:value;...` form.
pub fn encode_style(st: &Style) -> (r: String)
    ensures
        r@ == encode_style_spec(st@),
{
    let mut out = String::from_str("-myscript-pen-width:");
    out.append(st.pen_width.as_str());
    out.append(";color:#");
    let (cr, cg, cb, ca) = st.color;
    out.append(hex_char_str(cr / 16));
    out.append(hex_char_str(cr % 16));
    out.append(hex_char_str(cg / 16));
    out.append(hex_char_str(cg % 16));
    out.append(hex_char_str(cb / 16));
    out.append(hex_char_str(cb % 16));
    out.append(hex_char_str(ca / 16));
    out.append(hex_char_str(ca % 16));
    proof {
        assert(out@ =~= encode_style_spec(st@));
    }
    out
}

/// `exp_pos` stays within bounds, passes no exponent marker, and lands
/// on one when it lands inside `s`.
proof fn lemma_exp_pos_range(s: Seq<char>, i: int)
    requires
        0 <= i <= s.len(),
    ensures
        i <= exp_pos(s, i) <= s.len(),
        forall|j: int| i <= j < exp_pos(s, i) ==> s[j] != 'e' && s[j] != 'E',
        exp_pos(s, i) < s.len() ==> (s[exp_pos(s, i)] == 'e' || s[exp_pos(s, i)] == 'E'),
    decreases s.len() - i,
{
    if i < s.len() && !(s[i] == 'e' || s[i] == 'E') {
        lemma_exp_pos_range(s, i + 1);
    }
}

/// Whether `c` can appear in a floating-point literal: a digit, a dot, a
/// sign, an exponent marker, or a letter of `infinity` or `nan` in
/// either case.
pub open spec fn float_char(c: char) -> bool {
    is_digit(c) || c == '.' || c == '+' || c == '-' || c == 'e' || c == 'E' || ci(c, 'i', 'I')
        || ci(c, 'n', 'N') || ci(c, 'f', 'F') || ci(c, 'a', 'A') || ci(c, 't', 'T') || ci(
        c,
        'y',
        'Y',
    )
}

/// No character of a floating-point literal is whitespace, a segment
/// separator or a key separator.
proof fn lemma_float_char_reserved(c: char)
    requires
        float_char(c),
    ensures
        !is_space(c),
        c != ';',
        c != ':',
{
}

/// Every character of a floating-point literal is a [`float_char`], and
/// the literal is non-empty.
proof fn lemma_float_chars(s: Seq<char>)
    requires
        float_ok(s),
    ensures
        s.len() >= 1,
        forall|i: int| 0 <= i < s.len() ==> float_char(#[trigger] s[i]),
{
    let sign = s.len() > 0 && (s[0] == '+' || s[0] == '-');
    let t = if sign {
        s.skip(1)
    } else {
        s
    };
    let off: int = if sign {
        1
    } else {
        0
    };
    if special_ok(t) {
        assert(s.len() >= 1);
    } else {
        assert(number_ok(t));
        lemma_exp_pos_range(t, 0);
        let ep = exp_pos(t, 0);
        assert(digits_in(t.take(ep)) >= 1);
        if t.len() == 0 {
            assert(t.take(ep) =~= t);
            assert(digits_in(t.take(ep)) == 0);
        }
        assert(t.len() >= 1);
    }
    assert forall|i: int| 0 <= i < s.len() implies float_char(#[trigger] s[i]) by {
        if i < off {
        } else {
            let j = i - off;
            assert(t[j] == s[i]);
            if special_ok(t) {
                if t.len() == 3 {
                    assert(j == 0 || j == 1 || j == 2);
                } else {
                    assert(j == 0 || j == 1 || j == 2 || j == 3 || j == 4 || j == 5 || j == 6
                        || j == 7);
                }
            } else {
                let ep = exp_pos(t, 0);
                lemma_exp_pos_range(t, 0);
                if j < ep {
                    assert(t.take(ep)[j] == t[j]);
                    assert(is_digit(t[j]) || t[j] == '.');
                } else if j == ep {
                } else {
                    let x = t.skip(ep + 1);
                    assert(x[j - ep - 1] == t[j]);
                    assert(exp_ok(x));
                    if x.len() > 0 && (x[0] == '+' || x[0] == '-') {
                        if j - ep - 1 == 0 {
                        } else {
                            assert(is_digit(x[j - ep - 1]));
                        }
                    } else {
                        assert(is_digit(x[j - ep - 1]));
                    }
                }
            }
        }
    }
}

/// Each hexadecimal digit character encodes its value, and none is
/// whitespace or a reserved separator.
proof fn lemma_hex_char(v: u8)
    requires
        v < 16,
    ensures
        is_hex_digit(hex_char_of(v)),
        hex_val(hex_char_of(v)) == v,
        !is_space(hex_char_of(v)),
        hex_char_of(v) != ';',
        hex_char_of(v) != ':',
{
}

/// Decoding the canonical encoding of a style yields the style back:
/// the pen-width literal and the color values round-trip. The one
/// precondition is the well-formedness the decoder itself guarantees,
/// that the pen width is a floating-point literal.
#[verifier::rlimit(100)]
pub proof fn lemma_style_round_trip(st: StyleView)
    requires
        float_ok(st.pen_width),
    ensures
        decode_style_spec(encode_style_spec(st)) == Ok::<StyleView, PipelineError>(st),
{
    let pw = st.pen_width;
    let (cr, cg, cb, ca) = st.color;
    let lit1 = "-myscript-pen-width:"@;
    let lit2 = ";color:#"@;
    let key1 = "-myscript-pen-width"@;
    let key2 = "color"@;
    let hex8 = hex2(cr) + hex2(cg) + hex2(cb) + hex2(ca);
    let enc = encode_style_spec(st);
    let seg1 = lit1 + pw;
    let rest2 = lit2.skip(1) + hex8;
    reveal_strlit("-myscript-pen-width:");
    reveal_strlit(";color:#");
    reveal_strlit("-myscript-pen-width");
    reveal_strlit("color");
    reveal_with_fuel(find_from, 25);
    lemma_float_chars(pw);
    lemma_hex_char(cr / 16);
    lemma_hex_char(cr % 16);
    lemma_hex_char(cg / 16);
    lemma_hex_char(cg % 16);
    lemma_hex_char(cb / 16);
    lemma_hex_char(cb % 16);
    lemma_hex_char(ca / 16);
    lemma_hex_char(ca % 16);
    assert(lit1.len() == 20);
    assert(lit2.len() == 8);
    assert(hex8.len() == 8);
    assert(hex8[0] == hex_char_of(cr / 16) && hex8[1] == hex_char_of(cr % 16) && hex8[2]
        == hex_char_of(cg / 16) && hex8[3] == hex_char_of(cg % 16) && hex8[4] == hex_char_of(
        cb / 16,
    ) && hex8[5] == hex_char_of(cb % 16) && hex8[6] == hex_char_of(ca / 16) && hex8[7]
        == hex_char_of(ca % 16));
    // The first `;` of the encoding stands right after the pen width.
    assert(find_from(lit1, ';', 0) == 20);
    assert forall|i: int| 0 <= i < pw.len() implies pw[i] != ';' by {
        lemma_float_char_reserved(pw[i]);
    }
    lemma_find_none(pw, ';');
    lemma_find_append_miss(lit1, pw, ';');
    assert(find_from(seg1, ';', 0) == seg1.len());
    assert(enc =~= seg1 + (lit2 + hex8));
    lemma_find_append_miss(seg1, lit2 + hex8, ';');
    assert((lit2 + hex8)[0] == ';');
    assert(find_from(lit2 + hex8, ';', 0) == 0);
    let i0 = find_from(enc, ';', 0);
    assert(i0 == seg1.len());
    // The encoding splits into the pen-width segment and the color
    // segment.
    assert(enc.take(i0) =~= seg1);
    assert(enc.skip(i0 + 1) =~= rest2);
    assert forall|i: int| 0 <= i < rest2.len() implies rest2[i] != ';' by {
        if i < 7 {
            assert(rest2[i] == lit2[i + 1]);
        } else {
            assert(rest2[i] == hex8[i - 7]);
        }
    }
    lemma_find_none(rest2, ';');
    assert(split_on(rest2, ';') == seq![rest2]);
    assert(split_on(enc, ';') == seq![seg1] + seq![rest2]);
    // The pen-width segment re-assigns the original literal.
    assert(find_from(lit1, ':', 0) == 19);
    lemma_find_append_hit(lit1, pw, ':');
    assert(find_from(seg1, ':', 0) == 19);
    assert(seg1.take(19) =~= key1);
    lemma_trim_of_trimmed(key1);
    assert(seg1.skip(20) =~= pw);
    assert(pw.len() > 0 ==> float_char(pw[0]) && float_char(pw[pw.len() - 1]));
    lemma_float_char_reserved(pw[0]);
    lemma_float_char_reserved(pw[pw.len() - 1]);
    lemma_trim_of_trimmed(pw);
    let st1 = StyleView { pen_width: pw, color: default_style().color };
    assert(apply_segment(default_style(), seg1) == Ok::<StyleView, PipelineError>(st1));
    // The color segment re-assigns the original color bytes.
    assert(find_from(lit2.skip(1), ':', 0) == 5);
    lemma_find_append_hit(lit2.skip(1), hex8, ':');
    assert(find_from(rest2, ':', 0) == 5);
    assert(rest2.take(5) =~= key2);
    lemma_trim_of_trimmed(key2);
    let value2 = rest2.skip(6);
    assert(value2.len() == 9);
    assert(value2[0] == lit2[7]);
    assert(lit2[7] == '#');
    assert forall|i: int| 1 <= i < 9 implies is_hex_digit(#[trigger] value2[i]) by {
        assert(value2[i] == hex8[i - 1]);
    }
    assert(valid_color(value2));
    lemma_trim_of_trimmed(value2);
    assert(hex_byte_at(value2, 1) == cr) by {
        assert(value2[1] == hex8[0] && value2[2] == hex8[1]);
    }
    assert(hex_byte_at(value2, 3) == cg) by {
        assert(value2[3] == hex8[2] && value2[4] == hex8[3]);
    }
    assert(hex_byte_at(value2, 5) == cb) by {
        assert(value2[5] == hex8[4] && value2[6] == hex8[5]);
    }
    assert(hex_byte_at(value2, 7) == ca) by {
        assert(value2[7] == hex8[6] && value2[8] == hex8[7]);
    }
    assert(color_of(value2) == (cr, cg, cb, ca));
    assert(key2 != key1);
    assert(apply_segment(st1, rest2) == Ok::<StyleView, PipelineError>(st));
    // Folding the two segments lands on the original style.
    lemma_fold_segments_step(default_style(), seg1, seq![rest2]);
    lemma_fold_segments_one(st1, rest2);
    assert(seq![seg1] + seq![rest2] =~= seq![seg1, rest2]);
    assert(decode_style_spec(enc) == Ok::<StyleView, PipelineError>(st));
}

/// One segment keeps the pen width a floating-point literal.
proof fn lemma_apply_segment_wf(st: StyleView, seg: Seq<char>)
    requires
        float_ok(st.pen_width),
    ensures
        apply_segment(st, seg) is Ok ==> float_ok(apply_segment(st, seg)->Ok_0.pen_width),
{
}

/// A whole fold keeps the pen width a floating-point literal.
proof fn lemma_fold_segments_wf(st: StyleView, segs: Seq<Seq<char>>)
    requires
        float_ok(st.pen_width),
    ensures
        fold_segments(st, segs) is Ok ==> float_ok(fold_segments(st, segs)->Ok_0.pen_width),
    decreases segs.len(),
{
    if segs.len() > 0 {
        lemma_apply_segment_wf(st, segs[0]);
        match apply_segment(st, segs[0]) {
            Ok(st2) => {
                lemma_fold_segments_wf(st2, segs.drop_first());
            },
            Err(_) => {},
        }
    }
}

/// The default pen width is a floating-point literal.
proof fn lemma_default_pen_width_ok()
    ensures
        float_ok(default_style().pen_width),
{
    let s = default_style().pen_width;
    assert(s[0] == '0');
    assert(is_digit('0'));
    assert(exp_pos(s, 1) == 1);
    assert(exp_pos(s, 0) == 1);
    let m = s.take(1);
    assert(m =~= s);
    assert(m.drop_last() =~= Seq::<char>::empty());
    assert(m.last() == '0');
    assert(digits_in(Seq::<char>::empty()) == 0);
    assert(dots_in(Seq::<char>::empty()) == 0);
    assert(digits_in(m) == 1);
    assert(dots_in(m) == 0);
    assert forall|i: int| 0 <= i < m.len() implies is_digit(#[trigger] m[i]) || m[i] == '.' by {
        assert(i == 0);
    }
    assert(mantissa_ok(m));
    assert(number_ok(s));
}

/// Every successfully decoded style carries a pen width that is a valid
/// floating-point literal, the well-formedness [`lemma_style_round_trip`]
/// asks for.
pub proof fn lemma_decoded_style_wf(s: Seq<char>)
    ensures
        decode_style_spec(s) is Ok ==> float_ok(decode_style_spec(s)->Ok_0.pen_width),
{
    lemma_default_pen_width_ok();
    lemma_fold_segments_wf(default_style(), split_on(s, ';'));
}

/// Folding a single segment applies it to the start style.
proof fn lemma_fold_segments_one(st: StyleView, seg: Seq<char>)
    ensures
        fold_segments(st, seq![seg]) == match apply_segment(st, seg) {
            Ok(st2) => Ok::<StyleView, PipelineError>(st2),
            Err(e) => Err(e),
        },
{
    let segs = seq![seg];
    assert(segs[0] == seg);
    assert(segs.drop_first() =~= Seq::<Seq<char>>::empty());
    match apply_segment(st, seg) {
        Ok(st2) => {
            assert(fold_segments(st2, segs.drop_first()) == Ok::<StyleView, PipelineError>(st2));
        },
        Err(e) => {},
    }
}

/// Folding `[seg] + rest` first applies `seg`, then folds `rest`; an
/// error from `seg` is final.
proof fn lemma_fold_segments_step(st: StyleView, seg: Seq<char>, rest: Seq<Seq<char>>)
    ensures
        fold_segments(st, seq![seg] + rest) == match apply_segment(st, seg) {
            Ok(st2) => fold_segments(st2, rest),
            Err(e) => Err(e),
        },
{
    let segs = seq![seg] + rest;
    assert(segs[0] == seg);
    assert(segs.drop_first() =~= rest);
}

} // verus!
