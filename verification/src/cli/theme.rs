use vstd::prelude::*;
use vstd::string::StringSliceAdditionalSpecFns;

verus! {

/// A 24-bit color.
#[derive(Clone, Copy, Debug, PartialEq, Eq, Structural)]
pub struct Color {
    /// The red component of the color.
    red: u8,
    /// The green component of the color.
    green: u8,
    /// The blue component of the color.
    blue: u8,
}

impl Color {
    pub closed spec fn spec_red(&self) -> u8 {
        self.red
    }

    pub closed spec fn spec_green(&self) -> u8 {
        self.green
    }

    pub closed spec fn spec_blue(&self) -> u8 {
        self.blue
    }

    /// The red, green and blue components of the color.
    pub open spec fn rgb_spec(&self) -> (u8, u8, u8) {
        (self.spec_red(), self.spec_green(), self.spec_blue())
    }

    /// Creates a new color from red, green, and blue components, wrapped in a `ColorLike`.
    pub fn rgb(red: u8, green: u8, blue: u8) -> (res: ColorLike)
        ensures
            res matches ColorLike::Color(c) && c.rgb_spec() == (red, green, blue),
    {
        ColorLike::Color(Self { red, green, blue })
    }

    /// The red component of the color.
    pub fn red(&self) -> (res: u8)
        ensures
            res == self.spec_red(),
    {
        self.red
    }

    /// The green component of the color.
    pub fn green(&self) -> (res: u8)
        ensures
            res == self.spec_green(),
    {
        self.green
    }

    /// The blue component of the color.
    pub fn blue(&self) -> (res: u8)
        ensures
            res == self.spec_blue(),
    {
        self.blue
    }
}

/// Whether a character is a hexadecimal digit.
pub open spec fn is_hex_digit(c: char) -> bool {
    ('0' <= c && c <= '9') || ('a' <= c && c <= 'f') || ('A' <= c && c <= 'F')
}

/// The value of a hexadecimal digit.
pub open spec fn hex_digit_value(c: char) -> nat {
    if '0' <= c && c <= '9' {
        (c as nat - '0' as nat) as nat
    } else if 'a' <= c && c <= 'f' {
        (c as nat - 'a' as nat + 10) as nat
    } else {
        (c as nat - 'A' as nat + 10) as nat
    }
}

/// The number that a sequence of hexadecimal digits writes.
pub open spec fn hex_value(digits: Seq<char>) -> nat
    decreases digits.len(),
{
    if digits.len() == 0 {
        0
    } else {
        16 * hex_value(digits.drop_last()) + hex_digit_value(digits.last())
    }
}

/// The digits that a hexadecimal number in `text` is written with: after an optional leading `+`.
pub open spec fn hex_digits(text: Seq<char>) -> Seq<char> {
    if text.len() > 0 && text[0] == '+' {
        text.drop_first()
    } else {
        text
    }
}

/// `text` is a 32-bit unsigned number in base 16: an optional `+` followed by at least one
/// hexadecimal digit, the number fitting in 32 bits.
pub open spec fn is_hex_u32(text: Seq<char>) -> bool {
    let digits = hex_digits(text);
    &&& digits.len() > 0
    &&& forall|i: int| 0 <= i < digits.len() ==> is_hex_digit(#[trigger] digits[i])
    &&& hex_value(digits) <= u32::MAX
}

/// The hex string of a color can be converted: its first character, which is skipped, takes
/// one byte, and the rest is a 32-bit number in base 16.
pub open spec fn is_convertible_hex(text: Seq<char>) -> bool {
    &&& text.len() > 0
    &&& (text[0] as u32) < 128
    &&& is_hex_u32(text.drop_first())
}

/// The color that a convertible hex string gives: the low 24 bits of its number, as red,
/// green and blue bytes.
pub open spec fn hex_rgb(text: Seq<char>) -> (u8, u8, u8) {
    let value = hex_value(hex_digits(text.drop_first()));
    (((value / 65536) % 256) as u8, ((value / 256) % 256) as u8, (value % 256) as u8)
}

proof fn lemma_hex_value_prefix(digits: Seq<char>, i: int)
    requires
        0 <= i <= digits.len(),
    ensures
        hex_value(digits.take(i)) <= hex_value(digits),
    decreases digits.len(),
{
    if i < digits.len() {
        lemma_hex_value_prefix(digits.drop_last(), i);
        assert(digits.drop_last().take(i) =~= digits.take(i));
    } else {
        assert(digits.take(i) =~= digits);
    }
}

proof fn lemma_hex_value_bound(digits: Seq<char>)
    requires
        forall|i: int| 0 <= i < digits.len() ==> is_hex_digit(#[trigger] digits[i]),
    ensures
        hex_value(digits) < vstd::arithmetic::power::pow(16, digits.len()),
    decreases digits.len(),
{
    vstd::arithmetic::power::lemma_pow_positive(16, digits.len());
    if digits.len() > 0 {
        let rest = digits.drop_last();
        assert forall|i: int| 0 <= i < rest.len() implies is_hex_digit(#[trigger] rest[i]) by {
            assert(rest[i] == digits[i]);
        }
        lemma_hex_value_bound(rest);
        assert(is_hex_digit(digits[digits.len() - 1]));
        vstd::arithmetic::power::lemma_pow_adds(16, (digits.len() - 1) as nat, 1);
        vstd::arithmetic::power::lemma_pow1(16);
        let p = vstd::arithmetic::power::pow(16, (digits.len() - 1) as nat);
        assert(hex_value(rest) + 1 <= p);
        assert(16 * hex_value(rest) + 16 <= 16 * p) by (nonlinear_arith)
            requires
                hex_value(rest) + 1 <= p,
        ;
    }
}

/// Six hexadecimal digits after a one-byte first character always make a convertible hex string.
pub proof fn lemma_six_digit_hex_is_convertible(text: Seq<char>)
    requires
        text.len() == 7,
        (text[0] as u32) < 128,
        text[1] != '+',
        forall|i: int| 1 <= i < 7 ==> is_hex_digit(#[trigger] text[i]),
    ensures
        is_convertible_hex(text),
{
    let digits = text.drop_first();
    assert(hex_digits(digits) == digits);
    assert forall|i: int| 0 <= i < digits.len() implies is_hex_digit(#[trigger] digits[i]) by {
        assert(digits[i] == text[i + 1]);
    }
    lemma_hex_value_bound(digits);
    vstd::arithmetic::power::lemma_pow_adds(16, 3, 3);
    reveal_with_fuel(vstd::arithmetic::power::pow, 4);
}

/// The color of `#` and six hexadecimal digits takes its red, green and blue bytes from the
/// digit pairs in turn.
proof fn lemma_hex_rgb_of_six_digits(text: Seq<char>)
    requires
        text.len() == 7,
        text[1] != '+',
        forall|i: int| 1 <= i < 7 ==> is_hex_digit(#[trigger] text[i]),
    ensures
        hex_rgb(text) == (
            (16 * hex_digit_value(text[1]) + hex_digit_value(text[2])) as u8,
            (16 * hex_digit_value(text[3]) + hex_digit_value(text[4])) as u8,
            (16 * hex_digit_value(text[5]) + hex_digit_value(text[6])) as u8,
        ),
{
    let digits = text.drop_first();
    assert(hex_digits(digits) == digits);
    let d1 = hex_digit_value(text[1]);
    let d2 = hex_digit_value(text[2]);
    let d3 = hex_digit_value(text[3]);
    let d4 = hex_digit_value(text[4]);
    let d5 = hex_digit_value(text[5]);
    let d6 = hex_digit_value(text[6]);
    assert(is_hex_digit(text[1]) && is_hex_digit(text[2]) && is_hex_digit(text[3]));
    assert(is_hex_digit(text[4]) && is_hex_digit(text[5]) && is_hex_digit(text[6]));
    reveal_with_fuel(hex_value, 7);
    assert(digits.drop_last().drop_last().drop_last().drop_last().drop_last().drop_last().len() == 0);
    let v = hex_value(digits);
    assert(v == ((((d1 * 16 + d2) * 16 + d3) * 16 + d4) * 16 + d5) * 16 + d6);
    assert(d1 < 16 && d2 < 16 && d3 < 16 && d4 < 16 && d5 < 16 && d6 < 16);
    assert(v / 65536 % 256 == 16 * d1 + d2 && v / 256 % 256 == 16 * d3 + d4 && v % 256 == 16 * d5 + d6)
        by (nonlinear_arith)
        requires
            v == ((((d1 * 16 + d2) * 16 + d3) * 16 + d4) * 16 + d5) * 16 + d6,
            d1 < 16 && d2 < 16 && d3 < 16 && d4 < 16 && d5 < 16 && d6 < 16,
    ;
}

/// A hex color, which holds the string of its hex representation.
#[derive(Clone, Copy, Debug)]
pub struct Hex {
    /// The inner hex string representing the color.
    string: &'static str,
}

impl Hex {
    pub closed spec fn spec_text(&self) -> Seq<char> {
        self.string@
    }

    /// Creates a hex color from a string that has already been validated; use
    /// `validate_hex_color` first.
    pub fn create_unsafely_from_raw_unvalidated_hex_string(hex: &'static str) -> (res: Self)
        ensures
            res.spec_text() == hex@,
    {
        Self { string: hex }
    }

    /// Returns the `Color` this hex string describes: the number after its first character, in
    /// base 16, split into red, green and blue bytes.
    pub fn to_color(&self) -> (res: Color)
        requires
            is_convertible_hex(self.spec_text()),
        ensures
            res.rgb_spec() == hex_rgb(self.spec_text()),
    {
        let text = self.string;
        let length = text.unicode_len();
        let ghost rest = text@.drop_first();
        let ghost digits = hex_digits(rest);
        let mut i: usize = 1;
        if length > 1 && text.get_char(1) == '+' {
            i = 2;
        }
        proof {
            assert(digits =~= text@.subrange(i as int, length as int));
            lemma_hex_value_prefix(digits, digits.len() as int);
        }
        let start = i;
        let mut value: u64 = 0;
        while i < length
            invariant
                start <= i <= length,
                length == text@.len(),
                digits == text@.subrange(start as int, length as int),
                is_convertible_hex(text@),
                digits == hex_digits(text@.drop_first()),
                value as nat == hex_value(digits.take(i - start)),
            decreases length - i,
        {
            let c = text.get_char(i);
            proof {
                assert(c == digits[i - start]);
                assert(is_hex_digit(digits[i - start]));
                lemma_hex_value_prefix(digits, i - start + 1);
                assert(digits.take(i - start + 1).drop_last() =~= digits.take(i - start));
            }
            let digit: u64 = if '0' <= c && c <= '9' {
                (c as u64) - ('0' as u64)
            } else if 'a' <= c && c <= 'f' {
                (c as u64) - ('a' as u64) + 10
            } else {
                (c as u64) - ('A' as u64) + 10
            };
            value = value * 16 + digit;
            i = i + 1;
        }
        proof {
            assert(digits.take(i - start) =~= digits);
        }
        let bigint = value as u32;
        let r = ((bigint >> 16) & 255) as u8;
        let g = ((bigint >> 8) & 255) as u8;
        let b = (bigint & 255) as u8;
        proof {
            assert((bigint >> 16) & 255 == (bigint / 65536) % 256) by (bit_vector);
            assert((bigint >> 8) & 255 == (bigint / 256) % 256) by (bit_vector);
            assert(bigint & 255 == bigint % 256) by (bit_vector);
        }
        Color { red: r, green: g, blue: b }
    }
}

/// What `validate_hex_color` accepts: seven bytes, a `#` followed by six hexadecimal digits.
pub open spec fn passes_hex_validation(bytes: Seq<u8>) -> bool {
    &&& bytes.len() == 7
    &&& bytes[0] == 35
    &&& forall|i: int| 1 <= i < 7 ==> is_hex_byte(#[trigger] bytes[i])
}

/// Whether a byte is the ASCII code of a hexadecimal digit.
pub open spec fn is_hex_byte(b: u8) -> bool {
    (48 <= b && b <= 57) || (97 <= b && b <= 102) || (65 <= b && b <= 70)
}

/// Validates that a string is a valid hex color: a `#` followed by six hexadecimal digits. The
/// string is returned unchanged.
pub fn validate_hex_color(input: &str) -> (res: &str)
    requires
        passes_hex_validation(input.spec_bytes()),
    ensures
        res@ == input@,
{
    input
}

/// An object that can be converted into a color.
#[derive(Clone, Copy, Debug)]
pub enum ColorLike {
    /// The standard color variant, holding RGB data.
    Color(Color),
    /// The hex color variant, holding hex data.
    Hex(Hex),
}

impl ColorLike {
    /// Whether this color can be converted: a hex color needs a convertible hex string.
    pub open spec fn convertible(&self) -> bool {
        match self {
            ColorLike::Color(_) => true,
            ColorLike::Hex(hex) => is_convertible_hex(hex.spec_text()),
        }
    }

    /// The red, green and blue components of the color this describes.
    pub open spec fn spec_rgb(&self) -> (u8, u8, u8) {
        match self {
            ColorLike::Color(color) => color.rgb_spec(),
            ColorLike::Hex(hex) => hex_rgb(hex.spec_text()),
        }
    }

    /// Converts this color to a canonical `Color` object.
    pub fn to_color(&self) -> (res: Color)
        requires
            self.convertible(),
        ensures
            res.rgb_spec() == self.spec_rgb(),
    {
        match self {
            Self::Color(color) => *color,
            Self::Hex(hex) => hex.to_color(),
        }
    }
}

/// A style that can be applied to text: an optional color (foreground or background), and
/// whether the text is bold, underlined, struck through or italic.
#[derive(Clone, Copy, Debug)]
pub struct Style {
    /// The color of the style; for a background style this is the background color.
    color: Option<ColorLike>,
    /// Whether this style is bold
    bold: bool,
    /// Whether this style is underlined
    underline: bool,
    /// Whether this style is strikethrough
    strikethrough: bool,
    /// Whether this style is italic
    italic: bool,
    /// Whether setting the color of this style sets the background color.
    is_background: bool,
}

/// Text together with the style it is to be shown in.
#[derive(Clone, Debug)]
pub struct StyledString {
    pub text: String,
    pub bold: bool,
    pub italic: bool,
    pub strikethrough: bool,
    pub underline: bool,
    pub foreground: Option<Color>,
    pub background: Option<Color>,
}

impl Style {
    pub closed spec fn spec_color(&self) -> Option<ColorLike> {
        self.color
    }

    pub closed spec fn spec_bold(&self) -> bool {
        self.bold
    }

    pub closed spec fn spec_underline(&self) -> bool {
        self.underline
    }

    pub closed spec fn spec_strikethrough(&self) -> bool {
        self.strikethrough
    }

    pub closed spec fn spec_italic(&self) -> bool {
        self.italic
    }

    pub closed spec fn spec_is_background(&self) -> bool {
        self.is_background
    }

    /// `self` is `other` with the given color.
    pub open spec fn same_but_color(&self, other: Style, color: Option<ColorLike>) -> bool {
        &&& self.spec_color() == color
        &&& self.spec_bold() == other.spec_bold()
        &&& self.spec_underline() == other.spec_underline()
        &&& self.spec_strikethrough() == other.spec_strikethrough()
        &&& self.spec_italic() == other.spec_italic()
        &&& self.spec_is_background() == other.spec_is_background()
    }

    /// `self` is `other` with the given boldness.
    pub open spec fn same_but_bold(&self, other: Style, bold: bool) -> bool {
        &&& self.spec_color() == other.spec_color()
        &&& self.spec_bold() == bold
        &&& self.spec_underline() == other.spec_underline()
        &&& self.spec_strikethrough() == other.spec_strikethrough()
        &&& self.spec_italic() == other.spec_italic()
        &&& self.spec_is_background() == other.spec_is_background()
    }

    /// `self` is `other` with the given underlining.
    pub open spec fn same_but_underline(&self, other: Style, underline: bool) -> bool {
        &&& self.spec_color() == other.spec_color()
        &&& self.spec_bold() == other.spec_bold()
        &&& self.spec_underline() == underline
        &&& self.spec_strikethrough() == other.spec_strikethrough()
        &&& self.spec_italic() == other.spec_italic()
        &&& self.spec_is_background() == other.spec_is_background()
    }

    /// `self` is `other` with the given strike-through.
    pub open spec fn same_but_strikethrough(&self, other: Style, strikethrough: bool) -> bool {
        &&& self.spec_color() == other.spec_color()
        &&& self.spec_bold() == other.spec_bold()
        &&& self.spec_underline() == other.spec_underline()
        &&& self.spec_strikethrough() == strikethrough
        &&& self.spec_italic() == other.spec_italic()
        &&& self.spec_is_background() == other.spec_is_background()
    }

    /// `self` is `other` with the given italics.
    pub open spec fn same_but_italic(&self, other: Style, italic: bool) -> bool {
        &&& self.spec_color() == other.spec_color()
        &&& self.spec_bold() == other.spec_bold()
        &&& self.spec_underline() == other.spec_underline()
        &&& self.spec_strikethrough() == other.spec_strikethrough()
        &&& self.spec_italic() == italic
        &&& self.spec_is_background() == other.spec_is_background()
    }

    /// The style's color, if it has one, can be converted.
    pub open spec fn convertible(&self) -> bool {
        self.spec_color() matches Some(c) ==> c.convertible()
    }

    /// A blank foreground style: applying a color to it applies a foreground color.
    pub fn foreground() -> (res: Self)
        ensures
            res.spec_color() is None,
            !res.spec_bold() && !res.spec_italic() && !res.spec_strikethrough() && !res.spec_underline(),
            !res.spec_is_background(),
    {
        Self { color: None, bold: false, italic: false, strikethrough: false, underline: false, is_background: false }
    }

    /// A blank background style: applying a color to it applies a background color.
    pub fn background() -> (res: Self)
        ensures
            res.spec_color() is None,
            !res.spec_bold() && !res.spec_italic() && !res.spec_strikethrough() && !res.spec_underline(),
            res.spec_is_background(),
    {
        Self { color: None, bold: false, italic: false, strikethrough: false, underline: false, is_background: true }
    }

    /// This style with the given color.
    pub fn color(self, color: ColorLike) -> (res: Self)
        ensures
            res.same_but_color(self, Some(color)),
    {
        let mut res = self;
        res.color = Some(color);
        res
    }

    /// This style, bold.
    pub fn bold(self) -> (res: Self)
        ensures
            res.same_but_bold(self, true),
    {
        let mut res = self;
        res.bold = true;
        res
    }

    /// This style, underlined.
    pub fn underline(self) -> (res: Self)
        ensures
            res.same_but_underline(self, true),
    {
        let mut res = self;
        res.underline = true;
        res
    }

    /// This style, italic.
    pub fn italic(self) -> (res: Self)
        ensures
            res.same_but_italic(self, true),
    {
        let mut res = self;
        res.italic = true;
        res
    }

    /// This style, struck through.
    pub fn strikethrough(self) -> (res: Self)
        ensures
            res.same_but_strikethrough(self, true),
    {
        let mut res = self;
        res.strikethrough = true;
        res
    }

    /// Applies this style to the given text: its flags are carried over, and its color becomes
    /// the background color of a background style and the foreground color otherwise.
    pub fn on(&self, string: &str) -> (res: StyledString)
        requires
            self.convertible(),
        ensures
            res.text@ == string@,
            res.bold == self.spec_bold(),
            res.italic == self.spec_italic(),
            res.strikethrough == self.spec_strikethrough(),
            res.underline == self.spec_underline(),
            res.shows_colors_of(*self),
    {
        let mut base = StyledString {
            text: string.to_owned(),
            bold: false,
            italic: false,
            strikethrough: false,
            underline: false,
            foreground: None,
            background: None,
        };
        if self.bold {
            base.bold = true;
        }
        if self.italic {
            base.italic = true;
        }
        if self.strikethrough {
            base.strikethrough = true;
        }
        if self.underline {
            base.underline = true;
        }
        if let Some(color_like) = &self.color {
            let color = color_like.to_color();
            if self.is_background {
                base.background = Some(color);
            } else {
                base.foreground = Some(color);
            }
        }
        base
    }
}

/// Strings that can be shown in a style from a theme.
pub trait Styled {
    /// This string in the given style.
    fn style(&self, style: &Style) -> StyledString
        requires
            style.convertible(),
    ;
}

impl Styled for String {
    fn style(&self, style: &Style) -> (res: StyledString)
        ensures
            res.text@ == self@,
            res.bold == style.spec_bold(),
            res.italic == style.spec_italic(),
            res.strikethrough == style.spec_strikethrough(),
            res.underline == style.spec_underline(),
            res.shows_colors_of(*style),
    {
        style.on(self.as_str())
    }
}

impl Styled for str {
    fn style(&self, style: &Style) -> (res: StyledString)
        ensures
            res.text@ == self@,
            res.bold == style.spec_bold(),
            res.italic == style.spec_italic(),
            res.strikethrough == style.spec_strikethrough(),
            res.underline == style.spec_underline(),
            res.shows_colors_of(*style),
    {
        style.on(self)
    }
}

impl StyledString {
    /// The colors of this text are those of the style: its color is the background color of a
    /// background style and the foreground color of any other, and the other one is unset.
    pub open spec fn shows_colors_of(&self, style: Style) -> bool {
        &&& if !style.spec_is_background() && style.spec_color() is Some {
            self.foreground matches Some(c) && c.rgb_spec() == style.spec_color()->0.spec_rgb()
        } else {
            self.foreground is None
        }
        &&& if style.spec_is_background() && style.spec_color() is Some {
            self.background matches Some(c) && c.rgb_spec() == style.spec_color()->0.spec_rgb()
        } else {
            self.background is None
        }
    }
}


/// A hex color from a seven-character literal: a `#` and six hexadecimal digits. The literal
/// passes `validate_hex_color` and then becomes a `Hex`.
fn hex(text: &'static str) -> (res: ColorLike)
    requires
        text@.len() == 7,
        text@[0] == '#',
        forall|i: int| 1 <= i < 7 ==> is_hex_digit(#[trigger] text@[i]),
    ensures
        res.convertible(),
        res matches ColorLike::Hex(h) && h.spec_text() == text@,
        res.spec_rgb() == hex_rgb(text@),
        res.spec_rgb() == (
            (16 * hex_digit_value(text@[1]) + hex_digit_value(text@[2])) as u8,
            (16 * hex_digit_value(text@[3]) + hex_digit_value(text@[4])) as u8,
            (16 * hex_digit_value(text@[5]) + hex_digit_value(text@[6])) as u8,
        ),
{
    proof {
        assert forall|i: int| 0 <= i < text@.len() implies '\0' <= #[trigger] text@[i] <= '\u{7f}' by {
            if i > 0 {
                assert(is_hex_digit(text@[i]));
            }
        }
        assert(vstd::utf8::is_ascii_chars(text@));
        vstd::utf8::is_ascii_chars_encode_utf8(text@);
        let bytes = text.spec_bytes();
        assert forall|i: int| 1 <= i < 7 implies is_hex_byte(#[trigger] bytes[i]) by {
            assert(is_hex_digit(text@[i]));
            assert(bytes[i] == text@[i] as u8);
        }
        assert(bytes[0] == text@[0] as u8);
        lemma_six_digit_hex_is_convertible(text@);
        lemma_hex_rgb_of_six_digits(text@);
    }
    let validated = validate_hex_color(text);
    ColorLike::Hex(Hex::create_unsafely_from_raw_unvalidated_hex_string(validated))
}

/// A theme for the Cabin CLI tool, used to pretty-print code snippets from the source code
/// to point out error locations.
#[derive(Clone, Copy, Debug)]
pub struct Theme {
    /// The style for keywords, such as `function`, `new`, and `group`.
    keyword: Style,
    /// The style for lowercase-starting variable names.
    variable_name: Style,
    /// The style for uppercase-starting variable names.
    type_name_style: Style,
    /// The style for the background.
    background: Style,
    /// The style for the line numbers to the left of the program.
    line_numbers: Style,
    normal: Style,
    string: Style,
    number: Style,
    comment: Style,
    function: Style,
}

impl Theme {
    pub closed spec fn spec_keyword(&self) -> Style {
        self.keyword
    }

    pub closed spec fn spec_variable_name(&self) -> Style {
        self.variable_name
    }

    pub closed spec fn spec_type_name_style(&self) -> Style {
        self.type_name_style
    }

    pub closed spec fn spec_background(&self) -> Style {
        self.background
    }

    pub closed spec fn spec_line_numbers(&self) -> Style {
        self.line_numbers
    }

    pub closed spec fn spec_normal(&self) -> Style {
        self.normal
    }

    pub closed spec fn spec_string(&self) -> Style {
        self.string
    }

    pub closed spec fn spec_number(&self) -> Style {
        self.number
    }

    pub closed spec fn spec_comment(&self) -> Style {
        self.comment
    }

    pub closed spec fn spec_function(&self) -> Style {
        self.function
    }

    /// Every style of the theme can be applied.
    pub open spec fn convertible(&self) -> bool {
        &&& self.spec_keyword().convertible()
        &&& self.spec_variable_name().convertible()
        &&& self.spec_type_name_style().convertible()
        &&& self.spec_background().convertible()
        &&& self.spec_line_numbers().convertible()
        &&& self.spec_normal().convertible()
        &&& self.spec_string().convertible()
        &&& self.spec_number().convertible()
        &&& self.spec_comment().convertible()
        &&& self.spec_function().convertible()
    }

    /// The style for keywords.
    pub fn keyword(&self) -> (res: &Style)
        ensures
            *res == self.spec_keyword(),
    {
        &self.keyword
    }

    /// The style for variable names.
    pub fn variable_name(&self) -> (res: &Style)
        ensures
            *res == self.spec_variable_name(),
    {
        &self.variable_name
    }

    /// The style for type names.
    pub fn type_name_style(&self) -> (res: &Style)
        ensures
            *res == self.spec_type_name_style(),
    {
        &self.type_name_style
    }

    /// The style for the background.
    pub fn background(&self) -> (res: &Style)
        ensures
            *res == self.spec_background(),
    {
        &self.background
    }

    /// The style for plain code.
    pub fn normal(&self) -> (res: &Style)
        ensures
            *res == self.spec_normal(),
    {
        &self.normal
    }

    /// The style for string literals.
    pub fn string(&self) -> (res: &Style)
        ensures
            *res == self.spec_string(),
    {
        &self.string
    }

    /// The style for comments.
    pub fn comment(&self) -> (res: &Style)
        ensures
            *res == self.spec_comment(),
    {
        &self.comment
    }

    /// The style for number literals.
    pub fn number(&self) -> (res: &Style)
        ensures
            *res == self.spec_number(),
    {
        &self.number
    }

    /// The style for function names.
    pub fn function(&self) -> (res: &Style)
        ensures
            *res == self.spec_function(),
    {
        &self.function
    }

    /// The style for line numbers.
    pub fn line_numbers(&self) -> (res: &Style)
        ensures
            *res == self.spec_line_numbers(),
    {
        &self.line_numbers
    }
}

/// The foreground style with the given color.
fn colored(color: ColorLike) -> (res: Style)
    ensures
        res.spec_color() == Some(color),
        !res.spec_bold() && !res.spec_italic() && !res.spec_strikethrough() && !res.spec_underline(),
        !res.spec_is_background(),
{
    Style::foreground().color(color)
}

/// The foreground color of a style, as red, green and blue, if it has a color.
pub open spec fn style_rgb(style: Style) -> Option<(u8, u8, u8)> {
    match style.spec_color() {
        Some(c) => Some(c.spec_rgb()),
        None => None,
    }
}

/// A foreground style with nothing but the given color.
pub open spec fn plain_foreground(style: Style, rgb: (u8, u8, u8)) -> bool {
    &&& style_rgb(style) == Some(rgb)
    &&& !style.spec_bold() && !style.spec_italic() && !style.spec_strikethrough() && !style.spec_underline()
    &&& !style.spec_is_background()
}

/// A background style with nothing but the given color.
pub open spec fn plain_background(style: Style, rgb: (u8, u8, u8)) -> bool {
    &&& style_rgb(style) == Some(rgb)
    &&& !style.spec_bold() && !style.spec_italic() && !style.spec_strikethrough() && !style.spec_underline()
    &&& style.spec_is_background()
}

/// A blank style: no color and no effects.
pub open spec fn blank(style: Style, background: bool) -> bool {
    &&& style.spec_color() is None
    &&& !style.spec_bold() && !style.spec_italic() && !style.spec_strikethrough() && !style.spec_underline()
    &&& style.spec_is_background() == background
}

/// The hex text that a style's color was given as, if it was given as a hex color.
pub open spec fn hex_text_of(style: Style) -> Option<Seq<char>> {
    match style.spec_color() {
        Some(ColorLike::Hex(h)) => Some(h.spec_text()),
        _ => None,
    }
}

/// `res` is the "one midnight" theme: every style has the colors and effects listed here.
pub open spec fn is_one_midnight(res: Theme) -> bool {
    &&& res.convertible()
    &&& plain_foreground(res.spec_keyword(), (0xC6u8, 0x78u8, 0xDDu8))
    &&& plain_foreground(res.spec_variable_name(), (0xe0u8, 0x7cu8, 0x75u8))
    &&& plain_foreground(res.spec_type_name_style(), (0xe5u8, 0xc0u8, 0x7bu8))
    &&& plain_background(res.spec_background(), (0x06u8, 0x01u8, 0x15u8))
    &&& plain_foreground(res.spec_normal(), (0xBBu8, 0xBBu8, 0xBBu8))
    &&& plain_foreground(res.spec_string(), (0x98u8, 0xC3u8, 0x79u8))
    &&& plain_foreground(res.spec_number(), (0xD1u8, 0x9Au8, 0x66u8))
    &&& plain_foreground(res.spec_line_numbers(), (60u8, 50u8, 90u8))
    &&& plain_foreground(res.spec_comment(), (60u8, 50u8, 90u8))
    &&& plain_foreground(res.spec_function(), (0x61u8, 0xAFu8, 0xEFu8))
    &&& hex_text_of(res.spec_keyword()) == Some("#C678DD"@)
    &&& hex_text_of(res.spec_variable_name()) == Some("#e07c75"@)
    &&& hex_text_of(res.spec_type_name_style()) == Some("#e5c07b"@)
    &&& hex_text_of(res.spec_background()) == Some("#060115"@)
    &&& hex_text_of(res.spec_normal()) == Some("#BBBBBB"@)
    &&& hex_text_of(res.spec_string()) == Some("#98C379"@)
    &&& hex_text_of(res.spec_number()) == Some("#D19A66"@)
    &&& hex_text_of(res.spec_line_numbers()) is None
    &&& hex_text_of(res.spec_comment()) is None
    &&& hex_text_of(res.spec_function()) == Some("#61AFEF"@)
}

/// The "one midnight" theme: a midnight blurple with classic Atom One Dark foreground colors.
pub fn one_midnight() -> (res: Theme)
    ensures
        is_one_midnight(res),
{
    proof {
        reveal_strlit("#C678DD");
        reveal_strlit("#e07c75");
        reveal_strlit("#e5c07b");
        reveal_strlit("#060115");
        reveal_strlit("#BBBBBB");
        reveal_strlit("#98C379");
        reveal_strlit("#D19A66");
        reveal_strlit("#61AFEF");
    }
    Theme {
        keyword: colored(hex("#C678DD")),
        variable_name: colored(hex("#e07c75")),
        type_name_style: colored(hex("#e5c07b")),
        background: Style::background().color(hex("#060115")),
        normal: colored(hex("#BBBBBB")),
        string: colored(hex("#98C379")),
        number: colored(hex("#D19A66")),
        line_numbers: colored(Color::rgb(60, 50, 90)),
        comment: colored(Color::rgb(60, 50, 90)),
        function: colored(hex("#61AFEF")),
    }
}

/// `res` is the "catppuccin mocha" theme: every style has the colors and effects listed here.
pub open spec fn is_catppuccin_mocha(res: Theme) -> bool {
    &&& res.convertible()
    &&& plain_foreground(res.spec_keyword(), (0xcbu8, 0xa6u8, 0xf7u8))
    &&& plain_foreground(res.spec_variable_name(), (0xebu8, 0xa0u8, 0xacu8))
    &&& plain_foreground(res.spec_type_name_style(), (0xf9u8, 0xe2u8, 0xafu8))
    &&& plain_background(res.spec_background(), (0x1eu8, 0x1eu8, 0x2eu8))
    &&& plain_foreground(res.spec_normal(), (0xcdu8, 0xd6u8, 0xf4u8))
    &&& plain_foreground(res.spec_string(), (0xa6u8, 0xe3u8, 0xa1u8))
    &&& plain_foreground(res.spec_number(), (0xfau8, 0xb3u8, 0x87u8))
    &&& plain_foreground(res.spec_function(), (0x89u8, 0xb4u8, 0xfau8))
    &&& plain_foreground(res.spec_line_numbers(), (0x7fu8, 0x84u8, 0x9cu8))
    &&& plain_foreground(res.spec_comment(), (0x7fu8, 0x84u8, 0x9cu8))
    &&& hex_text_of(res.spec_keyword()) == Some("#cba6f7"@)
    &&& hex_text_of(res.spec_variable_name()) == Some("#eba0ac"@)
    &&& hex_text_of(res.spec_type_name_style()) == Some("#f9e2af"@)
    &&& hex_text_of(res.spec_background()) == Some("#1e1e2e"@)
    &&& hex_text_of(res.spec_normal()) == Some("#cdd6f4"@)
    &&& hex_text_of(res.spec_string()) == Some("#a6e3a1"@)
    &&& hex_text_of(res.spec_number()) == Some("#fab387"@)
    &&& hex_text_of(res.spec_function()) == Some("#89b4fa"@)
    &&& hex_text_of(res.spec_line_numbers()) == Some("#7f849c"@)
    &&& hex_text_of(res.spec_comment()) == Some("#7f849c"@)
}

/// The "catppuccin mocha" theme.
pub fn catppuccin_mocha() -> (res: Theme)
    ensures
        is_catppuccin_mocha(res),
{
    proof {
        reveal_strlit("#cba6f7");
        reveal_strlit("#eba0ac");
        reveal_strlit("#f9e2af");
        reveal_strlit("#1e1e2e");
        reveal_strlit("#cdd6f4");
        reveal_strlit("#a6e3a1");
        reveal_strlit("#fab387");
        reveal_strlit("#89b4fa");
        reveal_strlit("#7f849c");
    }
    Theme {
        keyword: colored(hex("#cba6f7")),
        variable_name: colored(hex("#eba0ac")),
        type_name_style: colored(hex("#f9e2af")),
        background: Style::background().color(hex("#1e1e2e")),
        normal: colored(hex("#cdd6f4")),
        string: colored(hex("#a6e3a1")),
        number: colored(hex("#fab387")),
        function: colored(hex("#89b4fa")),
        line_numbers: colored(hex("#7f849c")),
        comment: colored(hex("#7f849c")),
    }
}

/// `res` is the theme without colors: every style has the colors and effects listed here.
pub open spec fn is_no_theme(res: Theme) -> bool {
    &&& res.convertible()
    &&& blank(res.spec_keyword(), false)
    &&& blank(res.spec_variable_name(), false)
    &&& blank(res.spec_type_name_style(), false)
    &&& blank(res.spec_background(), true)
    &&& blank(res.spec_normal(), false)
    &&& blank(res.spec_string(), false)
    &&& blank(res.spec_number(), false)
    &&& blank(res.spec_line_numbers(), false)
    &&& blank(res.spec_comment(), false)
    &&& blank(res.spec_function(), false)
}

/// The "empty" or "none" theme, used to print snippets in plain uncolored text.
pub fn no_theme() -> (res: Theme)
    ensures
        is_no_theme(res),
{
    Theme {
        keyword: Style::foreground(),
        variable_name: Style::foreground(),
        type_name_style: Style::foreground(),
        background: Style::background(),
        line_numbers: Style::foreground(),
        normal: Style::foreground(),
        string: Style::foreground(),
        number: Style::foreground(),
        comment: Style::foreground(),
        function: Style::foreground(),
    }
}

/// The themes that can be chosen from the command line.
#[derive(Clone, Copy, Debug, PartialEq, Eq, Structural)]
pub enum ParseableTheme {
    /// The "one midnight" theme.
    OneMidnight,
    /// The "empty" or "none" theme.
    NoTheme,
}

impl ParseableTheme {
    /// The theme that this choice names.
    pub fn get_theme(&self) -> (res: Theme)
        ensures
            res.convertible(),
            *self == ParseableTheme::NoTheme ==> is_no_theme(res),
            *self == ParseableTheme::OneMidnight ==> is_one_midnight(res),
    {
        match self {
            Self::OneMidnight => one_midnight(),
            Self::NoTheme => no_theme(),
        }
    }
}

} // verus!
