//! The layout script parser: a whitespace-tokenized DSL of text, QR-code,
//! gap and box elements, combined into rows (`+`), columns (juxtaposition),
//! bracketed groups and overlays (`/`).
//!
//! Grammar:
//! - OVERLAY := ROW ("/" ROW)*
//! - ROW     := COLUMN ("+" COLUMN)*
//! - COLUMN  := FACTOR+
//! - FACTOR  := ELEMENT | "[" ROW "]"
//! - ELEMENT := "bar:"… | "img:"… | "qrc:"… | "gap:"… | "box:"… | text+
//!
//! The tree holds plain values only; rendering it is another subsystem's
//! business.

use vstd::prelude::*;
use crate::error::PtouchError;
use crate::strutil::chars_of;
use crate::strutil::chars_to_string;
use crate::strutil::decimal_string;
use crate::strutil::spec_decimal;
use vstd::string::StringExecFns;

verus! {

/// Vertical alignment of the elements of a row.
#[derive(Clone, Copy, Debug)]
pub enum VerticalAlign {
    Top,
    Center,
    Bottom,
}

impl Default for VerticalAlign {
    /// The default alignment is the top edge.
    fn default() -> (r: Self)
        ensures
            r is Top,
    {
        VerticalAlign::Top
    }
}

/// Where content is placed across the tape width.
#[derive(Clone, Copy, Debug)]
pub enum Placement {
    Top,
    Center,
    Bottom,
}

/// What `qrcode::QrCode::new` decides for a payload; the outcome is a
/// function of the payload alone.
pub uninterp spec fn qr_encodable(s: Seq<char>) -> bool;

/// Relies on `qrcode::QrCode::new`: returns whether the payload fits any
/// QR code version at the default error-correction level.
#[verifier::external_body]
fn qr_data_encodable(data: &str) -> (r: bool)
    ensures
        r == qr_encodable(data@),
{
    qrcode::QrCode::new(data).is_ok()
}

/// One node of the parsed layout tree.
pub enum LayoutElement {
    /// One or more lines of text.
    Text { lines: Vec<String> },
    /// A QR code holding `data`.
    QrCode { data: String },
    /// A fixed-size spacer; `visible` makes it a filled box.
    Gap { width: u32, height: u32, visible: bool },
    /// Two or more elements side by side.
    Row { children: Vec<LayoutElement> },
    /// Two or more elements stacked vertically.
    Column { children: Vec<LayoutElement> },
    /// Two or more layers drawn on top of each other.
    Overlay { layers: Vec<LayoutElement> },
}

impl LayoutElement {
    /// A tree the parser can produce: composites hold at least two
    /// children, text elements at least one line, and QR payloads are
    /// encodable.
    pub open spec fn wf(self) -> bool
        decreases self,
    {
        match self {
            LayoutElement::Text { lines } => lines@.len() >= 1,
            LayoutElement::QrCode { data } => qr_encodable(data@),
            LayoutElement::Gap { .. } => true,
            LayoutElement::Row { children } => children@.len() >= 2 && (forall|i: int|
                0 <= i < children@.len() ==> (#[trigger] children@[i]).wf()),
            LayoutElement::Column { children } => children@.len() >= 2 && (forall|i: int|
                0 <= i < children@.len() ==> (#[trigger] children@[i]).wf()),
            LayoutElement::Overlay { layers } => layers@.len() >= 2 && (forall|i: int|
                0 <= i < layers@.len() ==> (#[trigger] layers@[i]).wf()),
        }
    }

    /// The structural rendering of this element: its kind and its
    /// children, in parse order.
    pub open spec fn spec_describe(self) -> Seq<char>
        decreases self, 1int,
    {
        match self {
            LayoutElement::Text { lines } => "Text("@ + spec_join(lines.deep_view()) + ")"@,
            LayoutElement::QrCode { data } => "QrCode("@ + data@ + ")"@,
            LayoutElement::Gap { width, height, visible } => (if visible {
                "Box("@
            } else {
                "Gap("@
            }) + spec_decimal(width as nat) + "x"@ + spec_decimal(height as nat) + ")"@,
            LayoutElement::Row { children } => "Row("@ + spec_describe_list(children@) + ")"@,
            LayoutElement::Column { children } => "Column("@ + spec_describe_list(children@)
                + ")"@,
            LayoutElement::Overlay { layers } => "Overlay("@ + spec_describe_list(layers@) + ")"@,
        }
    }

    /// Renders the element's structure: `Row(Text(a),Text(b))` and the
    /// like, children in parse order.
    pub fn describe(&self) -> (r: String)
        ensures
            r@ == self.spec_describe(),
        decreases *self, 1int,
    {
        match self {
            LayoutElement::Text { lines } => {
                let mut m = "Text(".to_owned();
                append_joined(&mut m, lines);
                m.append(")");
                m
            },
            LayoutElement::QrCode { data } => {
                let mut m = "QrCode(".to_owned();
                m.append(data.as_str());
                m.append(")");
                m
            },
            LayoutElement::Gap { width, height, visible } => {
                let mut m = if *visible {
                    "Box(".to_owned()
                } else {
                    "Gap(".to_owned()
                };
                let w = decimal_string(*width as u64);
                m.append(w.as_str());
                m.append("x");
                let h = decimal_string(*height as u64);
                m.append(h.as_str());
                m.append(")");
                m
            },
            LayoutElement::Row { children } => {
                let mut m = "Row(".to_owned();
                append_described(&mut m, children);
                m.append(")");
                m
            },
            LayoutElement::Column { children } => {
                let mut m = "Column(".to_owned();
                append_described(&mut m, children);
                m.append(")");
                m
            },
            LayoutElement::Overlay { layers } => {
                let mut m = "Overlay(".to_owned();
                append_described(&mut m, layers);
                m.append(")");
                m
            },
        }
    }
}

/// The renderings of a list of elements, separated by commas.
pub open spec fn spec_describe_list(cs: Seq<LayoutElement>) -> Seq<char>
    decreases cs, 0int,
{
    if cs.len() == 0 {
        Seq::empty()
    } else {
        cs[0].spec_describe() + spec_describe_tail(cs.drop_first())
    }
}

/// The renderings of the elements after the first, each preceded by a
/// comma.
pub open spec fn spec_describe_tail(cs: Seq<LayoutElement>) -> Seq<char>
    decreases cs, 2int,
{
    if cs.len() == 0 {
        Seq::empty()
    } else {
        ","@ + cs[0].spec_describe() + spec_describe_tail(cs.drop_first())
    }
}

/// A list of strings joined with commas.
pub open spec fn spec_join(ss: Seq<Seq<char>>) -> Seq<char> {
    if ss.len() == 0 {
        Seq::empty()
    } else {
        ss[0] + spec_join_tail(ss.drop_first())
    }
}

/// The strings after the first, each preceded by a comma.
pub open spec fn spec_join_tail(ss: Seq<Seq<char>>) -> Seq<char>
    decreases ss.len(),
{
    if ss.len() == 0 {
        Seq::empty()
    } else {
        ","@ + ss[0] + spec_join_tail(ss.drop_first())
    }
}

/// Appends the lines joined with commas.
fn append_joined(m: &mut String, lines: &Vec<String>)
    ensures
        final(m)@ == old(m)@ + spec_join(lines.deep_view()),
{
    let ghost dv = lines.deep_view();
    if lines.len() == 0 {
        proof {
            assert(old(m)@ + spec_join(dv) =~= old(m)@);
        }
        return ;
    }
    m.append(lines[0].as_str());
    proof {
        assert(dv[0] == lines@[0]@);
    }
    let mut i: usize = 1;
    while i < lines.len()
        invariant
            1 <= i <= lines@.len(),
            dv == lines.deep_view(),
            dv.len() == lines@.len(),
            old(m)@ + spec_join(dv) == m@ + spec_join_tail(dv.skip(i as int)),
        decreases lines@.len() - i,
    {
        m.append(",");
        m.append(lines[i].as_str());
        proof {
            let t = dv.skip(i as int);
            assert(t[0] == lines@[i as int]@);
            assert(t.drop_first() =~= dv.skip(i + 1));
            assert(m@ + spec_join_tail(dv.skip(i + 1)) =~= (old(m)@ + spec_join(dv)));
        }
        i = i + 1;
    }
    proof {
        assert(dv.skip(i as int) =~= Seq::<Seq<char>>::empty());
        assert(m@ =~= old(m)@ + spec_join(dv));
    }
}

/// Appends the children's renderings joined with commas.
fn append_described(m: &mut String, cs: &Vec<LayoutElement>)
    ensures
        final(m)@ == old(m)@ + spec_describe_list(cs@),
    decreases *cs, 0int,
{
    if cs.len() == 0 {
        proof {
            assert(old(m)@ + spec_describe_list(cs@) =~= old(m)@);
        }
        return ;
    }
    proof {
        assert(decreases_to!(cs@ => cs@[0]));
    }
    let first = cs[0].describe();
    m.append(first.as_str());
    let mut i: usize = 1;
    while i < cs.len()
        invariant
            1 <= i <= cs@.len(),
            old(m)@ + spec_describe_list(cs@) == m@ + spec_describe_tail(cs@.skip(i as int)),
        decreases cs@.len() - i,
    {
        proof {
            assert(decreases_to!(cs@ => cs@[i as int]));
        }
        m.append(",");
        let d = cs[i].describe();
        m.append(d.as_str());
        proof {
            let t = cs@.skip(i as int);
            assert(t[0] == cs@[i as int]);
            assert(t.drop_first() =~= cs@.skip(i + 1));
            assert(m@ + spec_describe_tail(cs@.skip(i + 1)) =~= (old(m)@ + spec_describe_list(
                cs@,
            )));
        }
        i = i + 1;
    }
    proof {
        assert(cs@.skip(i as int) =~= Seq::<LayoutElement>::empty());
        assert(m@ =~= old(m)@ + spec_describe_list(cs@));
    }
}

// ---------------------------------------------------------------------------
// Numeric pieces of gap/box specs.
// ---------------------------------------------------------------------------

/// `c` is a decimal digit.
pub open spec fn is_digit_char(c: char) -> bool {
    48 <= c as u32 <= 57
}

/// Every character of `cs` is a decimal digit.
pub open spec fn spec_all_digits(cs: Seq<char>) -> bool {
    forall|i: int| 0 <= i < cs.len() ==> is_digit_char(#[trigger] cs[i])
}

/// The numeric value of a digit string.
pub open spec fn spec_digits_val(cs: Seq<char>) -> int
    decreases cs.len(),
{
    if cs.len() == 0 {
        0
    } else {
        spec_digits_val(cs.drop_last()) * 10 + (cs.last() as u32 - 48)
    }
}

/// What parsing a `u32` out of a digit string yields: the value when the
/// string is nonempty, all digits, and in range; nothing otherwise.
pub open spec fn spec_parse_u32(cs: Seq<char>) -> Option<u32> {
    if cs.len() > 0 && spec_all_digits(cs) && spec_digits_val(cs) <= u32::MAX {
        Some(spec_digits_val(cs) as u32)
    } else {
        None
    }
}

proof fn lemma_digits_val_nonneg(cs: Seq<char>)
    requires
        spec_all_digits(cs),
    ensures
        spec_digits_val(cs) >= 0,
    decreases cs.len(),
{
    if cs.len() > 0 {
        assert(spec_all_digits(cs.drop_last()));
        lemma_digits_val_nonneg(cs.drop_last());
        vstd::arithmetic::mul::lemma_mul_nonnegative(spec_digits_val(cs.drop_last()), 10);
        vstd::arithmetic::mul::lemma_mul_is_commutative(spec_digits_val(cs.drop_last()), 10);
    }
}

proof fn lemma_digits_val_monotone(cs: Seq<char>, j: int)
    requires
        spec_all_digits(cs),
        0 <= j <= cs.len(),
    ensures
        spec_digits_val(cs.take(j)) <= spec_digits_val(cs),
    decreases cs.len() - j,
{
    if j < cs.len() {
        lemma_digits_val_monotone(cs, j + 1);
        let t = cs.take(j + 1);
        assert(t.drop_last() =~= cs.take(j));
        assert(spec_all_digits(cs.take(j)));
        lemma_digits_val_nonneg(cs.take(j));
        vstd::arithmetic::mul::lemma_mul_inequality(1, 10, spec_digits_val(cs.take(j)));
        vstd::arithmetic::mul::lemma_mul_is_commutative(spec_digits_val(cs.take(j)), 10);
    } else {
        assert(cs.take(j) =~= cs);
    }
}

/// Parses a `u32` out of a digit string: succeeds exactly when the string
/// is nonempty, all decimal digits, and the value fits.
fn parse_u32_digits(cs: &[char]) -> (r: Option<u32>)
    ensures
        r == spec_parse_u32(cs@),
{
    if cs.len() == 0 {
        return None;
    }
    let mut acc: u32 = 0;
    let mut i: usize = 0;
    while i < cs.len()
        invariant
            i <= cs@.len(),
            cs@.len() > 0,
            spec_all_digits(cs@.take(i as int)),
            acc == spec_digits_val(cs@.take(i as int)),
        decreases cs@.len() - i,
    {
        let u: u32 = cs[i] as u32;
        if u < 48 || u > 57 {
            proof {
                assert(!is_digit_char(cs@[i as int]));
                assert(!spec_all_digits(cs@));
            }
            return None;
        }
        let d: u32 = u - 48;
        proof {
            assert(cs@.take(i + 1).drop_last() =~= cs@.take(i as int));
            assert(cs@.take(i + 1).last() == cs@[i as int]);
            assert(spec_all_digits(cs@.take(i + 1)));
        }
        if acc > (0xFFFF_FFFFu32 - d) / 10 {
            proof {
                if spec_all_digits(cs@) && spec_digits_val(cs@) <= u32::MAX {
                    lemma_digits_val_monotone(cs@, i + 1);
                }
            }
            return None;
        }
        acc = acc * 10 + d;
        i = i + 1;
    }
    proof {
        assert(cs@.take(cs@.len() as int) =~= cs@);
    }
    Some(acc)
}

/// The position of the first `x` in a gap/box spec.
pub open spec fn spec_find_x(cs: Seq<char>) -> Option<int>
    decreases cs.len(),
{
    if cs.len() == 0 {
        None
    } else if cs[0] == 'x' {
        Some(0)
    } else {
        match spec_find_x(cs.drop_first()) {
            Some(k) => Some(k + 1),
            None => None,
        }
    }
}

proof fn lemma_find_x_char(cs: Seq<char>, k: int)
    requires
        0 <= k <= cs.len(),
        forall|j: int| 0 <= j < k ==> #[trigger] cs[j] != 'x',
        k == cs.len() || cs[k] == 'x',
    ensures
        spec_find_x(cs) == if k == cs.len() {
            None::<int>
        } else {
            Some(k)
        },
    decreases cs.len(),
{
    if cs.len() > 0 && k > 0 {
        let t = cs.drop_first();
        assert forall|j: int| 0 <= j < k - 1 implies #[trigger] t[j] != 'x' by {
            assert(t[j] == cs[j + 1]);
        }
        assert(k - 1 == t.len() || t[k - 1] == cs[k]);
        lemma_find_x_char(t, k - 1);
    }
}

/// What a gap/box spec denotes: two dimensions split at the first `x`, or
/// one number doubled into a square.
pub open spec fn spec_gap_dims(cs: Seq<char>) -> Option<(u32, u32)> {
    match spec_find_x(cs) {
        Some(k) => match (spec_parse_u32(cs.take(k)), spec_parse_u32(cs.skip(k + 1))) {
            (Some(w), Some(h)) => Some((w, h)),
            _ => None,
        },
        None => match spec_parse_u32(cs) {
            Some(s) => Some((s, s)),
            None => None,
        },
    }
}

/// Parses a `gap:`/`box:` dimension spec: `WxH`, or one number for a
/// square. A spec that does not denote dimensions is rejected.
fn parse_gap_spec(cs: &[char], visible: bool) -> (r: Result<LayoutElement, PtouchError>)
    ensures
        match spec_gap_dims(cs@) {
            Some(dims) => r == Ok::<LayoutElement, PtouchError>(
                LayoutElement::Gap { width: dims.0, height: dims.1, visible },
            ),
            None => (r matches Err(e) && e matches PtouchError::InvalidGapSpec {
                spec,
                has_separator,
            } && spec@ == cs@ && has_separator == (spec_find_x(cs@) is Some)),
        },
{
    let mut k: usize = 0;
    while k < cs.len() && cs[k] != 'x'
        invariant
            k <= cs@.len(),
            forall|j: int| 0 <= j < k ==> #[trigger] cs@[j] != 'x',
        decreases cs@.len() - k,
    {
        k = k + 1;
    }
    proof {
        lemma_find_x_char(cs@, k as int);
    }
    if k < cs.len() {
        let ws = vstd::slice::slice_subrange(cs, 0, k);
        let hs = vstd::slice::slice_subrange(cs, k + 1, cs.len());
        let w = parse_u32_digits(ws);
        let h = parse_u32_digits(hs);
        match (w, h) {
            (Some(width), Some(height)) => Ok(LayoutElement::Gap { width, height, visible }),
            _ => Err(
                PtouchError::InvalidGapSpec {
                    spec: chars_to_string(cs),
                    has_separator: true,
                },
            ),
        }
    } else {
        match parse_u32_digits(cs) {
            Some(size) => Ok(LayoutElement::Gap { width: size, height: size, visible }),
            None => Err(
                PtouchError::InvalidGapSpec {
                    spec: chars_to_string(cs),
                    has_separator: false,
                },
            ),
        }
    }
}

// ---------------------------------------------------------------------------
// The recursive-descent parser.
// ---------------------------------------------------------------------------

/// The token is the single character `c`.
fn is_single(t: &Vec<char>, c: char) -> (r: bool)
    ensures
        r == (t@.len() == 1 && t@[0] == c),
{
    t.len() == 1 && t[0] == c
}

/// The token starts with the prefix `abc:`.
pub open spec fn spec_has_prefix(t: Seq<char>, a: char, b: char, c: char) -> bool {
    t.len() >= 4 && t[0] == a && t[1] == b && t[2] == c && t[3] == ':'
}

/// Returns whether the token starts with the prefix `abc:`.
fn has_prefix(t: &Vec<char>, a: char, b: char, c: char) -> (r: bool)
    ensures
        r == spec_has_prefix(t@, a, b, c),
{
    t.len() >= 4 && t[0] == a && t[1] == b && t[2] == c && t[3] == ':'
}

/// The token ends a text stretch: a separator, a bracket, or a prefixed
/// element.
pub open spec fn spec_is_special(t: Seq<char>) -> bool {
    ||| (t.len() == 1 && (t[0] == '+' || t[0] == '/' || t[0] == '[' || t[0] == ']'))
    ||| spec_has_prefix(t, 'b', 'a', 'r')
    ||| spec_has_prefix(t, 'i', 'm', 'g')
    ||| spec_has_prefix(t, 'q', 'r', 'c')
    ||| spec_has_prefix(t, 'g', 'a', 'p')
    ||| spec_has_prefix(t, 'b', 'o', 'x')
}

/// Returns whether the token ends a text stretch.
fn is_special(t: &Vec<char>) -> (r: bool)
    ensures
        r == spec_is_special(t@),
{
    is_single(t, '+') || is_single(t, '/') || is_single(t, '[') || is_single(t, ']')
        || has_prefix(t, 'b', 'a', 'r') || has_prefix(t, 'i', 'm', 'g') || has_prefix(
        t,
        'q',
        'r',
        'c',
    ) || has_prefix(t, 'g', 'a', 'p') || has_prefix(t, 'b', 'o', 'x')
}

/// The token's text after a four-character prefix.
fn strip_prefix4(t: &Vec<char>) -> (r: String)
    requires
        t@.len() >= 4,
    ensures
        r@ == t@.skip(4),
{
    chars_to_string(vstd::slice::slice_subrange(t.as_slice(), 4, t.len()))
}

/// The token at `pos`, for an error message; `None` at end of input.
fn token_option(tokens: &Vec<Vec<char>>, pos: usize) -> (r: Option<String>)
    ensures
        r is Some <==> pos < tokens@.len(),
{
    if pos < tokens.len() {
        Some(chars_to_string(tokens[pos].as_slice()))
    } else {
        None
    }
}

/// Gathers consecutive plain-text tokens (with an optional `txt:` prefix)
/// into one text element.
fn parse_txt_element(tokens: &Vec<Vec<char>>, pos: usize) -> (r: (Option<LayoutElement>, usize))
    requires
        pos <= tokens@.len(),
    ensures
        pos <= r.1 <= tokens@.len(),
        r.0 matches Some(e) ==> pos < r.1 && e.wf(),
        r.0 is None ==> r.1 == pos,
{
    let mut texts: Vec<String> = Vec::new();
    let mut p: usize = pos;
    while p < tokens.len() && !is_special(&tokens[p])
        invariant
            pos <= p <= tokens@.len(),
            texts@.len() == p - pos,
        decreases tokens@.len() - p,
    {
        let t = &tokens[p];
        if has_prefix(t, 't', 'x', 't') {
            texts.push(strip_prefix4(t));
        } else {
            texts.push(chars_to_string(t.as_slice()));
        }
        p = p + 1;
    }
    if texts.len() == 0 {
        (None, pos)
    } else {
        (Some(LayoutElement::Text { lines: texts }), p)
    }
}

/// Parses one element: a prefixed special element or a text stretch.
/// `bar:` and `img:` are recognised but unsupported, and a `qrc:` payload
/// that no QR code can hold is rejected.
fn parse_element(tokens: &Vec<Vec<char>>, pos: usize) -> (r: Result<
    (Option<LayoutElement>, usize),
    PtouchError,
>)
    requires
        pos <= tokens@.len(),
    ensures
        r matches Ok(op) ==> {
            &&& pos <= op.1 <= tokens@.len()
            &&& (op.0 matches Some(e) ==> pos < op.1 && e.wf())
            &&& (op.0 is None ==> op.1 == pos)
        },
{
    if pos >= tokens.len() {
        return Ok((None, pos));
    }
    let t = &tokens[pos];
    if has_prefix(t, 'b', 'a', 'r') {
        return Err(PtouchError::BarcodeNotImplemented { content: strip_prefix4(t) });
    }
    if has_prefix(t, 'i', 'm', 'g') {
        return Err(PtouchError::ImageNotImplemented { content: strip_prefix4(t) });
    }
    if has_prefix(t, 'q', 'r', 'c') {
        let content = strip_prefix4(t);
        if qr_data_encodable(content.as_str()) {
            return Ok((Some(LayoutElement::QrCode { data: content }), pos + 1));
        }
        return Err(PtouchError::QrNotEncodable { content });
    }
    if has_prefix(t, 'g', 'a', 'p') {
        match parse_gap_spec(vstd::slice::slice_subrange(t.as_slice(), 4, t.len()), false) {
            Ok(e) => {
                return Ok((Some(e), pos + 1));
            },
            Err(e) => {
                return Err(e);
            },
        }
    }
    if has_prefix(t, 'b', 'o', 'x') {
        match parse_gap_spec(vstd::slice::slice_subrange(t.as_slice(), 4, t.len()), true) {
            Ok(e) => {
                return Ok((Some(e), pos + 1));
            },
            Err(e) => {
                return Err(e);
            },
        }
    }
    Ok(parse_txt_element(tokens, pos))
}

/// Parses one factor: a bracketed row, or one element.
fn parse_factor(tokens: &Vec<Vec<char>>, pos: usize) -> (r: Result<
    (Option<LayoutElement>, usize),
    PtouchError,
>)
    requires
        pos <= tokens@.len(),
    ensures
        r matches Ok(op) ==> {
            &&& pos <= op.1 <= tokens@.len()
            &&& (op.0 matches Some(e) ==> pos < op.1 && e.wf())
            &&& (op.0 is None ==> op.1 == pos)
        },
    decreases tokens@.len() - pos, 0int,
{
    if pos < tokens.len() && is_single(&tokens[pos], '[') {
        let (row, p) = match parse_row(tokens, pos + 1) {
            Ok(x) => x,
            Err(e) => {
                return Err(e);
            },
        };
        if p < tokens.len() && is_single(&tokens[p], ']') {
            Ok((Some(row), p + 1))
        } else {
            Err(
                PtouchError::ExpectedClosingBracket {
                    position: if p < tokens.len() {
                        p + 1
                    } else {
                        0
                    },
                    token: token_option(tokens, p),
                },
            )
        }
    } else {
        parse_element(tokens, pos)
    }
}

/// Parses one column: one or more factors stacked vertically.
fn parse_column(tokens: &Vec<Vec<char>>, pos: usize) -> (r: Result<
    (LayoutElement, usize),
    PtouchError,
>)
    requires
        pos <= tokens@.len(),
    ensures
        r matches Ok(ep) ==> pos < ep.1 <= tokens@.len() && ep.0.wf(),
    decreases tokens@.len() - pos, 1int,
{
    let mut factors: Vec<LayoutElement> = Vec::new();
    let mut p: usize = pos;
    loop
        invariant
            pos <= p <= tokens@.len(),
            factors@.len() == 0 ==> p == pos,
            factors@.len() > 0 ==> p > pos,
            forall|i: int| 0 <= i < factors@.len() ==> (#[trigger] factors@[i]).wf(),
        ensures
            pos <= p <= tokens@.len(),
            factors@.len() == 0 ==> p == pos,
            factors@.len() > 0 ==> p > pos,
            forall|i: int| 0 <= i < factors@.len() ==> (#[trigger] factors@[i]).wf(),
        decreases tokens@.len() - p,
    {
        match parse_factor(tokens, p) {
            Ok((Some(f), p2)) => {
                factors.push(f);
                p = p2;
            },
            Ok((None, _)) => {
                break;
            },
            Err(e) => {
                return Err(e);
            },
        }
    }
    if factors.len() == 0 {
        Err(
            PtouchError::NoColumn {
                position: if p < tokens.len() {
                    p + 1
                } else {
                    0
                },
                token: token_option(tokens, p),
            },
        )
    } else if factors.len() == 1 {
        let e = factors.pop().unwrap();
        Ok((e, p))
    } else {
        Ok((LayoutElement::Column { children: factors }, p))
    }
}

/// Parses one row: one or more columns joined with `+`.
fn parse_row(tokens: &Vec<Vec<char>>, pos: usize) -> (r: Result<
    (LayoutElement, usize),
    PtouchError,
>)
    requires
        pos <= tokens@.len(),
    ensures
        r matches Ok(ep) ==> pos < ep.1 <= tokens@.len() && ep.0.wf(),
    decreases tokens@.len() - pos, 2int,
{
    let (first, first_p) = match parse_column(tokens, pos) {
        Ok(x) => x,
        Err(e) => {
            return Err(e);
        },
    };
    let mut columns: Vec<LayoutElement> = Vec::new();
    columns.push(first);
    let mut p: usize = first_p;
    while p < tokens.len() && is_single(&tokens[p], '+')
        invariant
            pos < p <= tokens@.len(),
            columns@.len() >= 1,
            forall|i: int| 0 <= i < columns@.len() ==> (#[trigger] columns@[i]).wf(),
        decreases tokens@.len() - p,
    {
        match parse_column(tokens, p + 1) {
            Ok((c, p2)) => {
                columns.push(c);
                p = p2;
            },
            Err(e) => {
                return Err(e);
            },
        }
    }
    if columns.len() == 1 {
        let e = columns.pop().unwrap();
        Ok((e, p))
    } else {
        Ok((LayoutElement::Row { children: columns }, p))
    }
}

/// Parses one overlay: one or more rows separated by `/`.
fn parse_overlay(tokens: &Vec<Vec<char>>, pos: usize) -> (r: Result<
    (LayoutElement, usize),
    PtouchError,
>)
    requires
        pos <= tokens@.len(),
    ensures
        r matches Ok(ep) ==> pos < ep.1 <= tokens@.len() && ep.0.wf(),
    decreases tokens@.len() - pos, 3int,
{
    let (first, first_p) = match parse_row(tokens, pos) {
        Ok(x) => x,
        Err(e) => {
            return Err(e);
        },
    };
    let mut rows: Vec<LayoutElement> = Vec::new();
    rows.push(first);
    let mut p: usize = first_p;
    while p < tokens.len() && is_single(&tokens[p], '/')
        invariant
            pos < p <= tokens@.len(),
            rows@.len() >= 1,
            forall|i: int| 0 <= i < rows@.len() ==> (#[trigger] rows@[i]).wf(),
        decreases tokens@.len() - p,
    {
        match parse_row(tokens, p + 1) {
            Ok((row, p2)) => {
                rows.push(row);
                p = p2;
            },
            Err(e) => {
                return Err(e);
            },
        }
    }
    if rows.len() == 1 {
        let e = rows.pop().unwrap();
        Ok((e, p))
    } else {
        Ok((LayoutElement::Overlay { layers: rows }, p))
    }
}

/// Parses a layout script into an element tree. An empty script is
/// rejected, a well-formed tree is returned, and any token the grammar
/// leaves unconsumed is a syntax error.
pub fn parse_layout_script(script: &[String]) -> (r: Result<LayoutElement, PtouchError>)
    ensures
        script@.len() == 0 ==> (r matches Err(e) && e matches PtouchError::EmptyLayoutScript),
        r matches Ok(e) ==> e.wf(),
{
    if script.len() == 0 {
        return Err(PtouchError::EmptyLayoutScript);
    }
    let mut tokens: Vec<Vec<char>> = Vec::new();
    let mut i: usize = 0;
    while i < script.len()
        invariant
            i <= script@.len(),
        decreases script@.len() - i,
    {
        tokens.push(chars_of(script[i].as_str()));
        i = i + 1;
    }
    let (overlay, p) = match parse_overlay(&tokens, 0) {
        Ok(x) => x,
        Err(e) => {
            return Err(e);
        },
    };
    if p < tokens.len() {
        return Err(
            PtouchError::SyntaxError { position: p + 1, token: token_option(&tokens, p) },
        );
    }
    Ok(overlay)
}

} // verus!
