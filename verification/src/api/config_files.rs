use vstd::prelude::*;
use vstd::string::StringExecFns;

use crate::compile_time::builtin::texts;
use crate::text::same_text;

verus! {

/// `count` spaces.
pub open spec fn spaces(count: nat) -> Seq<char> {
    Seq::new(count, |i: int| ' ')
}

/// A string of the given number of spaces.
pub fn repeat_space(count: usize) -> (res: String)
    ensures
        res@ == spaces(count as nat),
{
    let mut res = String::new();
    let mut i: usize = 0;
    proof {
        reveal_strlit(" ");
    }
    while i < count
        invariant
            i <= count,
            res@ == spaces(i as nat),
            " "@ == seq![' '],
        decreases count - i,
    {
        res.append(" ");
        i = i + 1;
        assert(res@ =~= spaces(i as nat));
    }
    res
}

/// The options of a Cabin project, as set in the `[options]` table of its `cabin.toml`.
#[derive(Debug, Clone)]
pub struct CabinOptions {
    pub quiet: bool,
    pub debug_mode: bool,
    pub developer_mode: bool,
    pub detailed_errors: bool,
    pub tab_size: i64,
    pub theme: String,
}

impl CabinOptions {
    /// The options of a project that sets none: not quiet, in debug and developer mode, with
    /// detailed errors, tabs four spaces wide and the `catppuccin-mocha` theme.
    pub fn new() -> (res: Self)
        ensures
            !res.quiet,
            res.debug_mode,
            res.developer_mode,
            res.detailed_errors,
            res.tab_size == 4,
            res.theme@ == "catppuccin-mocha"@,
    {
        CabinOptions {
            quiet: false,
            debug_mode: true,
            developer_mode: true,
            detailed_errors: true,
            tab_size: 4,
            theme: String::from_str("catppuccin-mocha"),
        }
    }

    /// The width of a tab in spaces.
    pub fn tab_size(&self) -> (res: i64)
        ensures
            res == self.tab_size,
    {
        self.tab_size
    }

    /// The indentation of `count` tabs, as spaces.
    pub fn tabs(&self, count: usize) -> (res: String)
        requires
            count == 0 || (0 <= self.tab_size && self.tab_size * count <= usize::MAX),
        ensures
            res@ == spaces(if count == 0 { 0 } else { (self.tab_size * count) as nat }),
    {
        if count == 0 {
            return repeat_space(0);
        }
        proof {
            assert(self.tab_size <= usize::MAX) by (nonlinear_arith)
                requires
                    0 <= self.tab_size,
                    count >= 1,
                    self.tab_size * count <= usize::MAX,
            ;
        }
        let width = self.tab_size as usize;
        proof {
            assert(width == self.tab_size);
            assert(width * count <= usize::MAX) by (nonlinear_arith)
                requires
                    width == self.tab_size,
                    self.tab_size * count <= usize::MAX,
            ;
        }
        repeat_space(width * count)
    }
}

/// The kinds of values that the options of a project take.
#[derive(Debug, Clone, Copy, PartialEq, Eq, Structural)]
pub enum OptionKind {
    /// `true` or `false`.
    Flag,
    /// A whole number.
    Number,
    /// The name of a theme.
    Theme,
}

/// The kind of value of the option with the given name, as written on the command line; `None`
/// when no option has that name.
pub open spec fn spec_option_kind(option: Seq<char>) -> Option<OptionKind> {
    if option == "quiet"@ || option == "debug-mode"@ || option == "developer-mode"@ || option
        == "detailed-errors"@ {
        Some(OptionKind::Flag)
    } else if option == "tab-size"@ {
        Some(OptionKind::Number)
    } else if option == "theme"@ {
        Some(OptionKind::Theme)
    } else {
        None
    }
}

/// The kind of value of the option with the given name; `None` when no option has that name.
pub fn option_kind(option: &str) -> (res: Option<OptionKind>)
    ensures
        res == spec_option_kind(option@),
{
    if same_text(option, "quiet") || same_text(option, "debug-mode") || same_text(option, "developer-mode")
        || same_text(option, "detailed-errors") {
        Some(OptionKind::Flag)
    } else if same_text(option, "tab-size") {
        Some(OptionKind::Number)
    } else if same_text(option, "theme") {
        Some(OptionKind::Theme)
    } else {
        None
    }
}

/// Whether a character is a decimal digit.
pub open spec fn is_decimal_digit(c: char) -> bool {
    '0' <= c && c <= '9'
}

/// The number that a sequence of decimal digits writes.
pub open spec fn digits_value(s: Seq<char>) -> nat
    decreases s.len(),
{
    if s.len() == 0 {
        0
    } else {
        digits_value(s.drop_last()) * 10 + (s.last() as nat - '0' as nat) as nat
    }
}

/// The digits of a whole number written with an optional sign.
pub open spec fn unsigned_part(s: Seq<char>) -> Seq<char> {
    if s.len() > 0 && (s[0] == '-' || s[0] == '+') {
        s.drop_first()
    } else {
        s
    }
}

/// `s` writes a 64-bit signed whole number: an optional `+` or `-`, then at least one decimal
/// digit, the number lying in the range of `i64`.
pub open spec fn is_i64_text(s: Seq<char>) -> bool {
    let body = unsigned_part(s);
    &&& body.len() > 0
    &&& forall|i: int| 0 <= i < body.len() ==> is_decimal_digit(#[trigger] body[i])
    &&& if s.len() > 0 && s[0] == '-' {
        digits_value(body) <= 9223372036854775808
    } else {
        digits_value(body) <= 9223372036854775807
    }
}

/// Whether a text writes a 64-bit signed whole number.
pub fn is_whole_number(text: &str) -> (res: bool)
    ensures
        res == is_i64_text(text@),
{
    let n = text.unicode_len();
    let mut start: usize = 0;
    let mut negative = false;
    if n > 0 && (text.get_char(0) == '-' || text.get_char(0) == '+') {
        negative = text.get_char(0) == '-';
        start = 1;
    }
    let ghost body = unsigned_part(text@);
    proof {
        assert(body =~= text@.subrange(start as int, n as int));
    }
    if start == n {
        return false;
    }
    let limit: u128 = if negative { 9223372036854775808 } else { 9223372036854775807 };
    let mut value: u128 = 0;
    let mut too_big = false;
    let mut i: usize = start;
    while i < n
        invariant
            start <= i <= n,
            n == text@.len(),
            body == text@.subrange(start as int, n as int),
            body == unsigned_part(text@),
            negative == (text@.len() > 0 && text@[0] == '-'),
            limit == if negative { 9223372036854775808u128 } else { 9223372036854775807u128 },
            forall|k: int| 0 <= k < i - start ==> is_decimal_digit(#[trigger] body[k]),
            !too_big ==> value == digits_value(body.take(i - start)) && value <= limit,
            too_big ==> digits_value(body.take(i - start)) > limit,
            limit <= 9223372036854775808,
        decreases n - i,
    {
        let c = text.get_char(i);
        assert(c == body[i - start]);
        if !('0' <= c && c <= '9') {
            proof {
                let k = i - start;
                assert(!is_decimal_digit(unsigned_part(text@)[k]));
                assert(0 <= k < unsigned_part(text@).len());
            }
            return false;
        }
        proof {
            assert(body.take(i - start + 1).drop_last() =~= body.take(i - start));
            let prev = digits_value(body.take(i - start));
            let d = (c as nat - '0' as nat) as nat;
            assert(digits_value(body.take(i - start + 1)) == prev * 10 + d);
            assert(prev * 10 + d >= prev) by (nonlinear_arith);
        }
        if !too_big {
            let d = (c as u32 - '0' as u32) as u128;
            let next = value * 10 + d;
            if next > limit {
                too_big = true;
            } else {
                value = next;
            }
        }
        i = i + 1;
    }
    proof {
        assert(body.take(i - start) =~= body);
    }
    !too_big
}

/// The text that an option's value takes in `cabin.toml`: a flag is `true` or `false`, a number
/// a 64-bit whole number, and a theme `catppuccin-mocha` or `one-midnight`, written in quotes.
/// `None` when the value does not fit the kind.
pub open spec fn spec_option_value_text(kind: OptionKind, value: Seq<char>) -> Option<Seq<char>> {
    match kind {
        OptionKind::Flag => if value == "true"@ || value == "false"@ {
            Some(value)
        } else {
            None
        },
        OptionKind::Number => if is_i64_text(value) {
            Some(value)
        } else {
            None
        },
        OptionKind::Theme => if value == "catppuccin-mocha"@ || value == "one-midnight"@ {
            Some("\""@ + value + "\""@)
        } else {
            None
        },
    }
}

/// The text that an option's value takes in `cabin.toml`, or `None` when it does not fit.
pub fn option_value_text(kind: OptionKind, value: &str) -> (res: Option<String>)
    ensures
        match res {
            Some(t) => spec_option_value_text(kind, value@) == Some(t@),
            None => spec_option_value_text(kind, value@) is None,
        },
{
    match kind {
        OptionKind::Flag => if same_text(value, "true") || same_text(value, "false") {
            Some(value.to_owned())
        } else {
            None
        },
        OptionKind::Number => if is_whole_number(value) {
            Some(value.to_owned())
        } else {
            None
        },
        OptionKind::Theme => if same_text(value, "catppuccin-mocha") || same_text(value, "one-midnight") {
            let mut t = String::from_str("\"");
            t.append(value);
            t.append("\"");
            Some(t)
        } else {
            None
        },
    }
}

/// What the `cabin.toml` text `document` becomes when toml_edit sets the key `option` of its
/// `options` table to the TOML value written `value`; `None` when the document or the value is
/// not valid TOML, or `options` is not a table.
pub uninterp spec fn toml_with_option(document: Seq<char>, option: Seq<char>, value: Seq<char>) -> Option<Seq<char>>;

/// Calls toml_edit: parses the text as a `DocumentMut` and the value as a `Value` (both through
/// `FromStr`), takes the entry `options` of the document (inserting an empty table when there is
/// none), and, when it is a table, inserts the value under the key `option` and writes the
/// document back as text (`Display`). The result is named, not stated: it is what toml_edit
/// makes of these arguments.
#[verifier::external_body]
fn toml_set_option(document: &str, option: &str, value: &str) -> (res: Option<String>)
    ensures
        match res {
            Some(text) => toml_with_option(document@, option@, value@) == Some(text@),
            None => toml_with_option(document@, option@, value@) is None,
        },
{
    let mut parsed = document.parse::<toml_edit::DocumentMut>().ok()?;
    let value = value.parse::<toml_edit::Value>().ok()?;
    let options = parsed.entry("options").or_insert(toml_edit::table()).as_table_like_mut()?;
    options.insert(option, toml_edit::Item::Value(value));
    Some(parsed.to_string())
}

/// Why an option could not be set.
#[derive(Debug, Clone, Copy, PartialEq, Eq, Structural)]
pub enum SetOptionError {
    /// No option has the name.
    UnknownOption,
    /// The value does not fit the kind of the option.
    InvalidValue,
    /// The `cabin.toml` text could not be edited as TOML.
    InvalidDocument,
}

/// The `cabin.toml` text after setting the option to the value: an error when no option has the
/// name or the value does not fit it; otherwise the value's text (`spec_option_value_text`) is
/// set in the `options` table by toml_edit.
pub open spec fn spec_set_option(document: Seq<char>, option: Seq<char>, value: Seq<char>) -> Result<
    Seq<char>,
    SetOptionError,
> {
    match spec_option_kind(option) {
        None => Err(SetOptionError::UnknownOption),
        Some(kind) => match spec_option_value_text(kind, value) {
            None => Err(SetOptionError::InvalidValue),
            Some(text) => match toml_with_option(document, option, text) {
                Some(edited) => Ok(edited),
                None => Err(SetOptionError::InvalidDocument),
            },
        },
    }
}

/// Sets the option to the value in the text of a `cabin.toml`, as `spec_set_option` says.
pub fn set_option(document: &str, option: &str, value: &str) -> (res: Result<String, SetOptionError>)
    ensures
        match res {
            Ok(text) => spec_set_option(document@, option@, value@) == Ok::<Seq<char>, SetOptionError>(text@),
            Err(e) => spec_set_option(document@, option@, value@) == Err::<Seq<char>, SetOptionError>(e),
        },
{
    let kind = match option_kind(option) {
        Some(kind) => kind,
        None => return Err(SetOptionError::UnknownOption),
    };
    let text = match option_value_text(kind, value) {
        Some(text) => text,
        None => return Err(SetOptionError::InvalidValue),
    };
    match toml_set_option(document, option, text.as_str()) {
        Some(edited) => Ok(edited),
        None => Err(SetOptionError::InvalidDocument),
    }
}

/// Every option of the `[options]` table has a kind, and no other name has one: `quiet`,
/// `debug-mode`, `developer-mode` and `detailed-errors` are flags, `tab-size` is a number and
/// `theme` a theme. Setting a flag to `true` or `false` is refused only when toml_edit cannot edit
/// the document.
pub proof fn law_options_have_their_kinds(document: Seq<char>, option: Seq<char>)
    ensures
        option == "quiet"@ || option == "debug-mode"@ || option == "developer-mode"@ || option
            == "detailed-errors"@ ==> spec_option_kind(option) == Some(OptionKind::Flag),
        option == "tab-size"@ ==> spec_option_kind(option) == Some(OptionKind::Number),
        option == "theme"@ ==> spec_option_kind(option) == Some(OptionKind::Theme),
        spec_option_kind(option) is Some ==> (option == "quiet"@ || option == "debug-mode"@ || option
            == "developer-mode"@ || option == "detailed-errors"@ || option == "tab-size"@ || option == "theme"@),
        spec_option_kind(option) == Some(OptionKind::Flag) ==> (spec_set_option(document, option, "true"@) is Ok
            <==> toml_with_option(document, option, "true"@) is Some) && (spec_set_option(document, option, "false"@)
            is Ok <==> toml_with_option(document, option, "false"@) is Some),
{
    reveal_strlit("quiet");
    reveal_strlit("debug-mode");
    reveal_strlit("developer-mode");
    reveal_strlit("detailed-errors");
    reveal_strlit("tab-size");
    reveal_strlit("theme");
    assert("tab-size"@[0] != "quiet"@[0] && "tab-size"@[0] != "debug-mode"@[0]);
    assert("tab-size"@[0] != "developer-mode"@[0] && "tab-size"@[0] != "detailed-errors"@[0]);
    assert("theme"@[0] != "quiet"@[0] && "theme"@[0] != "debug-mode"@[0]);
    assert("theme"@[0] != "developer-mode"@[0] && "theme"@[0] != "detailed-errors"@[0]);
    assert("theme"@[1] != "tab-size"@[1]);
}

} // verus!
