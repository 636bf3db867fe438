use vstd::prelude::*;

use biome_rowan::TextRange;

use crate::syntax_kind::SyntaxKind;

verus! {

/// The range of a token's text in the source, as `biome_rowan` gives it. Nothing of
/// its contents is looked into here: it is carried from a token to the value.
#[verifier::external_type_specification]
#[verifier::external_body]
pub struct ExTextRange(biome_rowan::TextRange);

/// String literal tokens, whose text holds the delimiters.
pub open spec fn string_literal_kind(k: SyntaxKind) -> bool {
    k == SyntaxKind::JS_STRING_LITERAL || k == SyntaxKind::JSX_STRING_LITERAL
}

/// The text of a string literal can lose its first and last byte: it has two
/// characters at least, and the first and the last are one byte long (ASCII).
pub open spec fn delimited(text: Seq<char>) -> bool {
    text.len() >= 2 && text[0] <= '\x7f' && text.last() <= '\x7f'
}

/// What a token holds.
pub struct TokenView {
    pub kind: SyntaxKind,
    pub text: Seq<char>,
    pub range: TextRange,
}

/// A token of the syntax tree: its kind, its text without trivia and the range of
/// that text.
#[derive(Debug, PartialEq, Eq)]
pub struct JsSyntaxToken {
    kind: SyntaxKind,
    text_trimmed: String,
    text_trimmed_range: TextRange,
}

impl View for JsSyntaxToken {
    type V = TokenView;

    closed spec fn view(&self) -> TokenView {
        TokenView {
            kind: self.kind,
            text: self.text_trimmed@,
            range: self.text_trimmed_range,
        }
    }
}

impl JsSyntaxToken {
    /// A string literal token's text has its delimiters.
    #[verifier::type_invariant]
    closed spec fn well_formed(self) -> bool {
        string_literal_kind(self.kind) ==> delimited(self.text_trimmed@)
    }

    /// Whether the invariant of tokens holds of `t`.
    pub open spec fn valid(t: TokenView) -> bool {
        string_literal_kind(t.kind) ==> delimited(t.text)
    }

    /// A token; `None` when it is a string literal whose text lacks its delimiters.
    pub fn new(kind: SyntaxKind, text_trimmed: String, text_trimmed_range: TextRange) -> (r:
        Option<JsSyntaxToken>)
        ensures
            r is Some <==> JsSyntaxToken::valid(
                TokenView { kind, text: text_trimmed@, range: text_trimmed_range },
            ),
            r matches Some(t) ==> t@ == (TokenView {
                kind,
                text: text_trimmed@,
                range: text_trimmed_range,
            }),
    {
        if kind == SyntaxKind::JS_STRING_LITERAL || kind == SyntaxKind::JSX_STRING_LITERAL {
            let n = text_trimmed.as_str().unicode_len();
            if n < 2 {
                return None;
            }
            let first = text_trimmed.as_str().get_char(0);
            let last = text_trimmed.as_str().get_char(n - 1);
            if !(first <= '\x7f' && last <= '\x7f') {
                return None;
            }
        }
        Some(JsSyntaxToken { kind, text_trimmed, text_trimmed_range })
    }

    pub fn kind(&self) -> (r: SyntaxKind)
        ensures
            r == self@.kind,
    {
        self.kind
    }

    /// The text of the token without its trivia.
    pub fn text_trimmed(&self) -> (r: &str)
        ensures
            r@ == self@.text,
    {
        self.text_trimmed.as_str()
    }

    /// The range of the text of the token without its trivia.
    pub fn text_trimmed_range(&self) -> (r: TextRange)
        ensures
            r == self@.range,
    {
        self.text_trimmed_range
    }
}

impl Clone for JsSyntaxToken {
    fn clone(&self) -> (r: Self)
        ensures
            r == *self,
    {
        proof {
            use_type_invariant(self);
        }
        JsSyntaxToken {
            kind: self.kind,
            text_trimmed: self.text_trimmed.clone(),
            text_trimmed_range: self.text_trimmed_range,
        }
    }
}

/// Whether two strings hold the same characters.
pub fn str_eq(a: &str, b: &str) -> (r: bool)
    ensures
        r == (a@ == b@),
{
    let n = a.unicode_len();
    if n != b.unicode_len() {
        return false;
    }
    let mut i: usize = 0;
    while i < n
        invariant
            n == a@.len(),
            n == b@.len(),
            0 <= i <= n,
            forall|j: int| 0 <= j < i ==> a@[j] == b@[j],
        decreases n - i,
    {
        if a.get_char(i) != b.get_char(i) {
            return false;
        }
        i = i + 1;
    }
    proof {
        assert(a@ =~= b@);
    }
    true
}

/// A character that a numeric literal of the value zero may hold before its
/// exponent: a zero digit, the decimal point or a separator.
pub open spec fn zero_char(c: char) -> bool {
    c == '0' || c == '.' || c == '_'
}

/// A literal with a radix prefix: `0x`, `0X`, `0o`, `0O`, `0b` or `0B`.
pub open spec fn radix_prefixed(t: Seq<char>) -> bool {
    &&& t.len() >= 2
    &&& t[0] == '0'
    &&& (t[1] == 'x' || t[1] == 'X' || t[1] == 'o' || t[1] == 'O' || t[1] == 'b' || t[1] == 'B')
}

/// No exponent mark `e` or `E` stands at or before `i`.
pub open spec fn no_exponent_until(t: Seq<char>, i: int) -> bool {
    forall|j: int| 0 <= j <= i ==> t[j] != 'e' && t[j] != 'E'
}

/// The text of a numeric literal denotes zero: the digits after a radix prefix are
/// all zeros, or the mantissa before the exponent holds only zeros, points and
/// separators.
pub open spec fn denotes_zero(t: Seq<char>) -> bool {
    &&& t.len() > 0
    &&& if radix_prefixed(t) {
        forall|i: int| 2 <= i < t.len() ==> t[i] == '0' || t[i] == '_'
    } else {
        forall|i: int| 0 <= i < t.len() && #[trigger] no_exponent_until(t, i) ==> zero_char(t[i])
    }
}

/// The digits of a BigInt literal: its text without the closing `n`.
pub open spec fn bigint_digits(t: Seq<char>) -> Seq<char> {
    if t.len() > 0 && t.last() == 'n' {
        t.drop_last()
    } else {
        t
    }
}

/// Whether the numeric literal `text` denotes zero; for a BigInt, without its `n`.
pub fn is_zero_literal(text: &str, bigint: bool) -> (r: bool)
    ensures
        r == denotes_zero(if bigint {
            bigint_digits(text@)
        } else {
            text@
        }),
{
    let mut n = text.unicode_len();
    if bigint && n > 0 && text.get_char(n - 1) == 'n' {
        n = n - 1;
    }
    let ghost t = if bigint {
        bigint_digits(text@)
    } else {
        text@
    };
    assert(t.len() == n);
    assert(forall|i: int| 0 <= i < n ==> t[i] == text@[i]);
    if n == 0 {
        return false;
    }
    let c0 = text.get_char(0);
    if n >= 2 {
        let c1 = text.get_char(1);
        if c0 == '0' && (c1 == 'x' || c1 == 'X' || c1 == 'o' || c1 == 'O' || c1 == 'b' || c1
            == 'B') {
            assert(t[0] == c0 && t[1] == c1);
            let mut i: usize = 2;
            while i < n
                invariant
                    t == (if bigint {
                        bigint_digits(text@)
                    } else {
                        text@
                    }),
                    radix_prefixed(t),
                    2 <= i <= n,
                    n == t.len(),
                    n <= text@.len(),
                    forall|j: int| 0 <= j < n ==> t[j] == text@[j],
                    forall|j: int| 2 <= j < i ==> t[j] == '0' || t[j] == '_',
                decreases n - i,
            {
                let c = text.get_char(i);
                if !(c == '0' || c == '_') {
                    assert(t[i as int] == c);
                    assert(radix_prefixed(t));
                    assert(!denotes_zero(t));
                    return false;
                }
                i = i + 1;
            }
            assert(denotes_zero(t));
            return true;
        }
        assert(t[0] == c0 && t[1] == c1);
    }
    let mut i: usize = 0;
    while i < n
        invariant
            t == (if bigint {
                bigint_digits(text@)
            } else {
                text@
            }),
            0 <= i <= n,
            n == t.len(),
            n <= text@.len(),
            !radix_prefixed(t),
            forall|j: int| 0 <= j < n ==> t[j] == text@[j],
            forall|j: int| 0 <= j < i ==> t[j] != 'e' && t[j] != 'E' && zero_char(t[j]),
        decreases n - i,
    {
        let c = text.get_char(i);
        if c == 'e' || c == 'E' {
            assert forall|k: int| 0 <= k < t.len() && #[trigger] no_exponent_until(t, k) implies zero_char(
                t[k],
            ) by {
                if k >= i {
                    assert(t[i as int] == 'e' || t[i as int] == 'E');
                }
            }
            assert(denotes_zero(t));
            return true;
        }
        if !zero_char_exec(c) {
            assert(t[i as int] == c);
            assert(no_exponent_until(t, i as int));
            assert(!denotes_zero(t));
            return false;
        }
        i = i + 1;
    }
    true
}

fn zero_char_exec(c: char) -> (r: bool)
    ensures
        r == zero_char(c),
{
    c == '0' || c == '.' || c == '_'
}

/// Static values defined in JavaScript's expressions.
#[derive(Debug, PartialEq, Eq)]
pub enum StaticValue {
    Boolean(JsSyntaxToken),
    Null(JsSyntaxToken),
    Undefined(JsSyntaxToken),
    Number(JsSyntaxToken),
    BigInt(JsSyntaxToken),
    /// The string can be empty.
    String(JsSyntaxToken),
    /// The empty template string.
    EmptyString(TextRange),
}

impl StaticValue {
    /// The text of the value: a string literal loses its delimiters, the empty
    /// template string is empty, and any other value is the text of its token.
    pub open spec fn text_of(self) -> Seq<char> {
        match self {
            StaticValue::Boolean(t) => t@.text,
            StaticValue::Null(t) => t@.text,
            StaticValue::Undefined(t) => t@.text,
            StaticValue::Number(t) => t@.text,
            StaticValue::BigInt(t) => t@.text,
            StaticValue::String(t) => if string_literal_kind(t@.kind) {
                t@.text.subrange(1, t@.text.len() - 1)
            } else {
                t@.text
            },
            StaticValue::EmptyString(_) => Seq::empty(),
        }
    }

    /// The value is falsy in JavaScript: `false`, `null`, `undefined`, a number or a
    /// BigInt literal that denotes zero (`0`, `0.0`, `0x0`, `0e5`, `0n`, `0x0n`, ...)
    /// or the empty string.
    pub open spec fn falsy(self) -> bool {
        match self {
            StaticValue::Boolean(t) => t@.text == "false"@,
            StaticValue::Null(_) => true,
            StaticValue::Undefined(_) => true,
            StaticValue::EmptyString(_) => true,
            StaticValue::Number(t) => denotes_zero(t@.text),
            StaticValue::BigInt(t) => denotes_zero(bigint_digits(t@.text)),
            StaticValue::String(_) => self.text_of().len() == 0,
        }
    }

    /// The value is a string constant: a string literal or a template literal with
    /// no substitutions.
    pub open spec fn string_constant(self) -> bool {
        self is String || self is EmptyString
    }

    /// The range of the value.
    pub open spec fn range_of(self) -> TextRange {
        match self {
            StaticValue::Boolean(t) => t@.range,
            StaticValue::Null(t) => t@.range,
            StaticValue::Undefined(t) => t@.range,
            StaticValue::Number(t) => t@.range,
            StaticValue::BigInt(t) => t@.range,
            StaticValue::String(t) => t@.range,
            StaticValue::EmptyString(r) => r,
        }
    }

    /// Returns `true` if the value is falsy.
    pub fn is_falsy(&self) -> (r: bool)
        ensures
            r == self.falsy(),
            match *self {
                StaticValue::Boolean(t) => r == (t@.text == "false"@),
                StaticValue::Null(_) => r,
                StaticValue::Undefined(_) => r,
                StaticValue::EmptyString(_) => r,
                StaticValue::Number(t) => r == denotes_zero(t@.text),
                StaticValue::BigInt(t) => r == denotes_zero(bigint_digits(t@.text)),
                StaticValue::String(t) => r == (if string_literal_kind(t@.kind) {
                    t@.text.len() == 2
                } else {
                    t@.text.len() == 0
                }),
            },
    {
        match self {
            StaticValue::Boolean(token) => str_eq(token.text_trimmed(), "false"),
            StaticValue::Null(_) | StaticValue::Undefined(_) | StaticValue::EmptyString(_) => true,
            StaticValue::Number(token) => is_zero_literal(token.text_trimmed(), false),
            StaticValue::BigInt(token) => is_zero_literal(token.text_trimmed(), true),
            StaticValue::String(_) => self.text().is_empty(),
        }
    }

    /// Returns the text of the static value.
    pub fn text(&self) -> (r: &str)
        ensures
            r@ == self.text_of(),
            match *self {
                StaticValue::Boolean(t) => r@ == t@.text,
                StaticValue::Null(t) => r@ == t@.text,
                StaticValue::Undefined(t) => r@ == t@.text,
                StaticValue::Number(t) => r@ == t@.text,
                StaticValue::BigInt(t) => r@ == t@.text,
                StaticValue::String(t) => if string_literal_kind(t@.kind) {
                    t@.text == seq![t@.text[0]] + r@ + seq![t@.text.last()]
                } else {
                    r@ == t@.text
                },
                StaticValue::EmptyString(_) => r@.len() == 0,
            },
    {
        match self {
            StaticValue::Boolean(token) | StaticValue::Null(token) | StaticValue::Undefined(token)
            | StaticValue::Number(token) | StaticValue::BigInt(token) => token.text_trimmed(),
            StaticValue::String(token) => {
                let text = token.text_trimmed();
                let kind = token.kind();
                if kind == SyntaxKind::JS_STRING_LITERAL || kind == SyntaxKind::JSX_STRING_LITERAL {
                    proof {
                        use_type_invariant(token);
                    }
                    // A string literal token has its delimiters at the start and the end.
                    let n = text.unicode_len();
                    return text.substring_char(1, n - 1);
                }
                text
            },
            StaticValue::EmptyString(_) => {
                proof {
                    reveal_strlit("");
                }
                ""
            },
        }
    }

    /// Returns the range of the static value.
    pub fn range(&self) -> (r: TextRange)
        ensures
            r == self.range_of(),
            match *self {
                StaticValue::Boolean(t) => r == t@.range,
                StaticValue::Null(t) => r == t@.range,
                StaticValue::Undefined(t) => r == t@.range,
                StaticValue::Number(t) => r == t@.range,
                StaticValue::BigInt(t) => r == t@.range,
                StaticValue::String(t) => r == t@.range,
                StaticValue::EmptyString(g) => r == g,
            },
    {
        match self {
            StaticValue::Boolean(token) | StaticValue::Null(token) | StaticValue::Undefined(token)
            | StaticValue::Number(token) | StaticValue::BigInt(token) | StaticValue::String(
                token,
            ) => token.text_trimmed_range(),
            StaticValue::EmptyString(range) => *range,
        }
    }

    /// Returns `true` if the value is a string constant whose text is not `text`.
    pub fn is_not_string_constant(&self, text: &str) -> (r: bool)
        ensures
            r == (self.string_constant() && self.text_of() != text@),
            (self is String || self is EmptyString) ==> (r <==> self.text_of() != text@),
            !(self is String || self is EmptyString) ==> !r,
    {
        match self {
            StaticValue::String(_) | StaticValue::EmptyString(_) => !str_eq(self.text(), text),
            _ => false,
        }
    }

    /// Returns the text of the value if it is a string constant.
    pub fn as_string_constant(&self) -> (r: Option<&str>)
        ensures
            self.string_constant() <==> r is Some,
            r matches Some(s) ==> s@ == self.text_of(),
            (self is String || self is EmptyString) <==> r is Some,
    {
        match self {
            StaticValue::String(_) | StaticValue::EmptyString(_) => Some(self.text()),
            _ => None,
        }
    }

    /// Returns `true` if the value is `null` or `undefined`.
    pub fn is_null_or_undefined(&self) -> (r: bool)
        ensures
            r == (self is Null || self is Undefined),
    {
        matches!(self, StaticValue::Null(_) | StaticValue::Undefined(_))
    }
}

/// `null` and `undefined` are falsy.
pub proof fn law_null_or_undefined_is_falsy(v: StaticValue)
    ensures
        (v is Null || v is Undefined) ==> v.falsy(),
{
}

/// Law: the text of a value is the text of its token, but for a string literal,
/// which loses its first and last character (its delimiters), and for the empty
/// template string, which is empty.
pub proof fn law_text_is_token_text(v: StaticValue)
    ensures
        match v {
            StaticValue::Boolean(t) => v.text_of() == t@.text,
            StaticValue::Null(t) => v.text_of() == t@.text,
            StaticValue::Undefined(t) => v.text_of() == t@.text,
            StaticValue::Number(t) => v.text_of() == t@.text,
            StaticValue::BigInt(t) => v.text_of() == t@.text,
            StaticValue::String(t) => if string_literal_kind(t@.kind) && t@.text.len() >= 2 {
                t@.text == seq![t@.text[0]] + v.text_of() + seq![t@.text.last()]
            } else if !string_literal_kind(t@.kind) {
                v.text_of() == t@.text
            } else {
                true
            },
            StaticValue::EmptyString(_) => v.text_of().len() == 0,
        },
{
    if let StaticValue::String(t) = v {
        if string_literal_kind(t@.kind) && t@.text.len() >= 2 {
            assert(t@.text =~= seq![t@.text[0]] + v.text_of() + seq![t@.text.last()]);
        }
    }
}

/// Law: the string constants are exactly the string values, whatever the kind of
/// their token, and the empty template string.
pub proof fn law_string_constants_are_strings(v: StaticValue)
    ensures
        v.string_constant() <==> (v is String || v is EmptyString),
{
}

/// A string constant is falsy exactly when its text is empty.
pub proof fn law_string_constant_falsy_iff_empty(v: StaticValue)
    ensures
        v.string_constant() ==> (v.falsy() <==> v.text_of().len() == 0),
{
}

impl Clone for StaticValue {
    fn clone(&self) -> (r: Self)
        ensures
            r == *self,
    {
        match self {
            StaticValue::Boolean(token) => StaticValue::Boolean(token.clone()),
            StaticValue::Null(token) => StaticValue::Null(token.clone()),
            StaticValue::Undefined(token) => StaticValue::Undefined(token.clone()),
            StaticValue::Number(token) => StaticValue::Number(token.clone()),
            StaticValue::BigInt(token) => StaticValue::BigInt(token.clone()),
            StaticValue::String(token) => StaticValue::String(token.clone()),
            StaticValue::EmptyString(range) => StaticValue::EmptyString(*range),
        }
    }
}

impl AsRef<str> for StaticValue {
    fn as_ref(&self) -> (r: &str)
        ensures
            r@ == self.text_of(),
    {
        self.text()
    }
}

} // verus!
