//! Text handed over by the script engine.

use vstd::prelude::*;
use vstd::utf8::{decode_utf8, valid_utf8};

verus! {

/// `std::str::from_utf8`: the text that the bytes spell, where they are UTF-8.
#[verifier::external_body]
pub(crate) fn utf8_text(bytes: &Vec<u8>) -> (text: Option<&str>)
    ensures
        text is Some <==> valid_utf8(bytes@),
        text matches Some(t) ==> t@ == decode_utf8(bytes@),
{
    std::str::from_utf8(bytes).ok()
}

/// The decimal digit `d`, for `d` below ten.
pub open spec fn digit(d: nat) -> char {
    if d == 0 {
        '0'
    } else if d == 1 {
        '1'
    } else if d == 2 {
        '2'
    } else if d == 3 {
        '3'
    } else if d == 4 {
        '4'
    } else if d == 5 {
        '5'
    } else if d == 6 {
        '6'
    } else if d == 7 {
        '7'
    } else if d == 8 {
        '8'
    } else {
        '9'
    }
}

/// `n` in decimal, without leading zeros.
pub open spec fn decimal(n: nat) -> Seq<char>
    decreases n,
{
    if n < 10 {
        seq![digit(n)]
    } else {
        decimal(n / 10).push(digit(n % 10))
    }
}

/// `i` in decimal, with a minus sign in front where it is negative.
pub open spec fn signed_decimal(i: int) -> Seq<char> {
    if i < 0 {
        seq!['-'] + decimal((-i) as nat)
    } else {
        decimal(i as nat)
    }
}

fn digit_text(d: u64) -> (text: &'static str)
    requires
        d < 10,
    ensures
        text@ == seq![digit(d as nat)],
{
    proof {
        reveal_strlit("0");
        reveal_strlit("1");
        reveal_strlit("2");
        reveal_strlit("3");
        reveal_strlit("4");
        reveal_strlit("5");
        reveal_strlit("6");
        reveal_strlit("7");
        reveal_strlit("8");
        reveal_strlit("9");
    }
    let text = match d {
        0 => "0",
        1 => "1",
        2 => "2",
        3 => "3",
        4 => "4",
        5 => "5",
        6 => "6",
        7 => "7",
        8 => "8",
        _ => "9",
    };
    assert(text@ =~= seq![digit(d as nat)]);
    text
}

/// `n` in decimal.
pub fn decimal_text(n: u64) -> (text: String)
    ensures
        text@ == decimal(n as nat),
    decreases n,
{
    if n < 10 {
        digit_text(n).to_owned()
    } else {
        let mut text = decimal_text(n / 10);
        text.append(digit_text(n % 10));
        assert(text@ =~= decimal(n as nat));
        text
    }
}

/// `i` in decimal.
pub fn signed_decimal_text(i: i64) -> (text: String)
    ensures
        text@ == signed_decimal(i as int),
{
    if i < 0 {
        let magnitude: u64 = (-(i + 1)) as u64 + 1;
        let mut text = "-".to_owned();
        proof {
            reveal_strlit("-");
        }
        let digits = decimal_text(magnitude);
        text.append(digits.as_str());
        assert(text@ =~= signed_decimal(i as int));
        text
    } else {
        decimal_text(i as u64)
    }
}

/// Different numbers have different decimals.
pub proof fn law_decimal_is_injective(a: nat, b: nat)
    requires
        decimal(a) == decimal(b),
    ensures
        a == b,
    decreases a,
{
    if a < 10 {
        if b >= 10 {
            lemma_decimal_nonempty(b / 10);
            assert(decimal(b).len() >= 2);
        } else {
            assert(decimal(a)[0] == digit(a) && decimal(b)[0] == digit(b));
            lemma_digit_injective(a, b);
        }
    } else if b < 10 {
        lemma_decimal_nonempty(a / 10);
        assert(decimal(a).len() >= 2);
    } else {
        assert(decimal(a).drop_last() =~= decimal(a / 10));
        assert(decimal(b).drop_last() =~= decimal(b / 10));
        assert(decimal(a).last() == digit(a % 10) && decimal(b).last() == digit(b % 10));
        assert(decimal(a).drop_last() == decimal(b).drop_last());
        lemma_digit_injective(a % 10, b % 10);
        law_decimal_is_injective(a / 10, b / 10);
        assert(a == 10 * (a / 10) + a % 10);
        assert(b == 10 * (b / 10) + b % 10);
    }
}

proof fn lemma_digit_injective(d: nat, e: nat)
    requires
        d < 10,
        e < 10,
        digit(d) == digit(e),
    ensures
        d == e,
{
}

proof fn lemma_decimal_nonempty(n: nat)
    ensures
        decimal(n).len() >= 1,
{
}

/// `parts`, with a space between any two of them.
pub open spec fn spaced(parts: Seq<Seq<char>>) -> Seq<char>
    decreases parts.len(),
{
    if parts.len() == 0 {
        Seq::empty()
    } else if parts.len() == 1 {
        parts[0]
    } else {
        spaced(parts.drop_last()) + seq![' '] + parts.last()
    }
}

/// A value that a script prints. Numbers and strings come as the text that stands for them.
#[derive(Debug, PartialEq, Eq)]
pub enum PrintValue {
    Nil,
    Boolean(bool),
    Integer(i64),
    Number(String),
    String(String),
    Table,
    Function,
    UserData,
    Other,
}

impl PrintValue {
    /// How the value is printed.
    pub open spec fn spec_text(self) -> Seq<char> {
        match self {
            PrintValue::Nil => "nil"@,
            PrintValue::Boolean(b) => if b {
                "true"@
            } else {
                "false"@
            },
            PrintValue::Integer(i) => signed_decimal(i as int),
            PrintValue::Number(text) => text@,
            PrintValue::String(text) => text@,
            PrintValue::Table => "table"@,
            PrintValue::Function => "function"@,
            PrintValue::UserData => "userdata"@,
            PrintValue::Other => "unknown"@,
        }
    }

    /// How the value is printed.
    pub fn text(&self) -> (text: String)
        ensures
            text@ == self.spec_text(),
    {
        match self {
            PrintValue::Nil => "nil".to_owned(),
            PrintValue::Boolean(b) => if *b {
                "true".to_owned()
            } else {
                "false".to_owned()
            },
            PrintValue::Integer(i) => signed_decimal_text(*i),
            PrintValue::Number(text) => text.clone(),
            PrintValue::String(text) => text.clone(),
            PrintValue::Table => "table".to_owned(),
            PrintValue::Function => "function".to_owned(),
            PrintValue::UserData => "userdata".to_owned(),
            PrintValue::Other => "unknown".to_owned(),
        }
    }
}

/// The line that a script's `print` logs.
pub fn print_line(values: &Vec<PrintValue>) -> (line: String)
    ensures
        line@ == spaced(values@.map_values(|v: PrintValue| v.spec_text())),
{
    let ghost parts = values@.map_values(|v: PrintValue| v.spec_text());
    let mut line = String::new();
    let mut i: usize = 0;
    assert(line@ =~= Seq::<char>::empty());
    assert(parts.take(0) =~= Seq::empty());
    while i < values.len()
        invariant
            i <= values.len(),
            parts == values@.map_values(|v: PrintValue| v.spec_text()),
            line@ == spaced(parts.take(i as int)),
        decreases values.len() - i,
    {
        let text = values[i].text();
        proof {
            reveal_strlit(" ");
            assert(parts.take(i + 1).drop_last() =~= parts.take(i as int));
            assert(parts.take(i + 1).last() == text@);
        }
        if i == 0 {
            line = text;
            assert(line@ =~= spaced(parts.take(1)));
        } else {
            line.append(" ");
            line.append(text.as_str());
            assert(line@ =~= spaced(parts.take(i + 1)));
        }
        i = i + 1;
    }
    assert(parts.take(values@.len() as int) =~= parts);
    line
}

/// An error that a script sees as a message.
#[derive(Debug, PartialEq, Eq)]
pub struct RuntimeError {
    pub message: String,
}

/// `prefix`, the name in single quotes.
pub open spec fn quoting(prefix: Seq<char>, name: Seq<char>) -> Seq<char> {
    prefix + "'"@ + name + "'"@
}

/// An error whose message ends in a name in single quotes.
pub fn error_quoting(prefix: &str, name: &str) -> (error: RuntimeError)
    ensures
        error.message@ == quoting(prefix@, name@),
{
    let mut message = prefix.to_owned();
    message.append("'");
    message.append(name);
    message.append("'");
    RuntimeError { message }
}

/// The number that decimal digits spell.
pub open spec fn number_spelled(text: Seq<char>) -> int
    decreases text.len(),
{
    if text.len() == 0 {
        0
    } else {
        10 * number_spelled(text.drop_last()) + (text.last() as int - '0' as int)
    }
}

/// A number's decimal is made of digits, spells the number, and does not begin with a zero unless
/// it is that digit alone.
pub proof fn law_decimals_spell_their_numbers(n: nat)
    ensures
        number_spelled(decimal(n)) == n,
        decimal(n).len() >= 1,
        forall|i: int| 0 <= i < decimal(n).len() ==> '0' <= #[trigger] decimal(n)[i] <= '9',
        decimal(n)[0] == '0' ==> n == 0 && decimal(n).len() == 1,
    decreases n,
{
    reveal_with_fuel(number_spelled, 2);
    if n < 10 {
        assert(decimal(n).drop_last() =~= Seq::<char>::empty());
        assert(decimal(n).last() == digit(n));
    } else {
        law_decimals_spell_their_numbers(n / 10);
        assert(decimal(n).drop_last() =~= decimal(n / 10));
        assert(decimal(n).last() == digit(n % 10));
        assert(decimal(n)[0] == decimal(n / 10)[0]);
    }
}

/// A negative number is a minus sign and the decimal of its size; any other is its decimal.
pub proof fn law_negative_numbers_have_a_sign(i: int)
    ensures
        i >= 0 ==> signed_decimal(i) == decimal(i as nat),
        i < 0 ==> signed_decimal(i).len() > 1 && signed_decimal(i)[0] == '-' && signed_decimal(
            i,
        ).skip(1) == decimal((-i) as nat),
{
    if i < 0 {
        law_decimals_spell_their_numbers((-i) as nat);
        assert(signed_decimal(i).skip(1) =~= decimal((-i) as nat));
    }
}

/// Nothing joins to nothing, one part to itself, and two lists of parts to what each joins to, with
/// a space between.
pub proof fn law_parts_are_joined_by_spaces(a: Seq<Seq<char>>, b: Seq<Seq<char>>)
    ensures
        a.len() == 0 ==> spaced(a).len() == 0,
        a.len() == 1 ==> spaced(a) == a[0],
        a.len() > 0 && b.len() > 0 ==> spaced(a + b) == spaced(a) + seq![' '] + spaced(b),
    decreases b.len(),
{
    if a.len() > 0 && b.len() > 0 {
        let front = b.drop_last();
        assert((a + b).drop_last() =~= a + front);
        assert((a + b).last() == b.last());
        if b.len() > 1 {
            law_parts_are_joined_by_spaces(a, front);
            assert(spaced(a + b) =~= spaced(a) + seq![' '] + spaced(b));
        } else {
            assert(a + front =~= a);
        }
    }
}

/// How values are printed: nil, booleans and integers as they are written, numbers and strings as
/// the text that stands for them, and anything else as the name of what it is.
pub proof fn law_how_values_are_printed(value: PrintValue)
    ensures
        value is Nil ==> value.spec_text() == "nil"@,
        value matches PrintValue::Boolean(b) ==> value.spec_text() == if b {
            "true"@
        } else {
            "false"@
        },
        value matches PrintValue::Integer(i) ==> value.spec_text() == signed_decimal(i as int),
        value matches PrintValue::Number(text) ==> value.spec_text() == text@,
        value matches PrintValue::String(text) ==> value.spec_text() == text@,
        value is Table ==> value.spec_text() == "table"@,
        value is Function ==> value.spec_text() == "function"@,
        value is UserData ==> value.spec_text() == "userdata"@,
        value is Other ==> value.spec_text() == "unknown"@,
{
}

/// A quoted name stands behind the prefix, between single quotes, and nothing follows.
pub proof fn law_names_are_quoted(prefix: Seq<char>, name: Seq<char>)
    ensures
        quoting(prefix, name) == prefix + seq!['\''] + name + seq!['\''],
{
    reveal_strlit("'");
    assert("'"@ =~= seq!['\'']);
}

/// The texts of numbers spell them: digits alone, none of them a leading zero, behind a minus sign
/// where the number is negative.
pub proof fn law_texts_spell_numbers(n: u64, text: String, i: i64, signed: String)
    requires
        call_ensures(decimal_text, (n,), text),
        call_ensures(signed_decimal_text, (i,), signed),
    ensures
        number_spelled(text@) == n,
        forall|k: int| 0 <= k < text@.len() ==> '0' <= #[trigger] text@[k] <= '9',
        text@.len() > 0,
        text@[0] == '0' ==> text@.len() == 1,
        i >= 0 ==> number_spelled(signed@) == i && (forall|k: int|
            0 <= k < signed@.len() ==> '0' <= #[trigger] signed@[k] <= '9'),
        i < 0 ==> signed@.len() > 1 && signed@[0] == '-' && number_spelled(signed@.skip(1)) == -i && (
        forall|k: int| 1 <= k < signed@.len() ==> '0' <= #[trigger] signed@[k] <= '9'),
{
    law_decimals_spell_their_numbers(n as nat);
    law_negative_numbers_have_a_sign(i as int);
    if i >= 0 {
        law_decimals_spell_their_numbers(i as nat);
    } else {
        law_decimals_spell_their_numbers((-i) as nat);
        assert forall|k: int| 1 <= k < signed@.len() implies '0' <= #[trigger] signed@[k] <= '9' by {
            assert(signed@.skip(1)[k - 1] == signed@[k]);
        }
    }
}

/// Printing no values makes an empty line, and one value the line of its text; the values of two
/// lists make the two lines, with a space between.
pub proof fn law_lines_join_texts(
    a: Vec<PrintValue>,
    b: Vec<PrintValue>,
    both: Vec<PrintValue>,
    line_a: String,
    line_b: String,
    line: String,
    text: String,
)
    requires
        call_ensures(print_line, (&a,), line_a),
        call_ensures(print_line, (&b,), line_b),
        call_ensures(print_line, (&both,), line),
        both@ == a@ + b@,
        a@.len() > 0 ==> call_ensures(PrintValue::text, (&a@[0],), text),
    ensures
        a@.len() == 0 ==> line_a@.len() == 0,
        a@.len() == 1 ==> line_a@ == text@,
        a@.len() > 0 && b@.len() > 0 ==> line@ == line_a@ + seq![' '] + line_b@,
{
    let f = |v: PrintValue| v.spec_text();
    assert(both@.map_values(f) =~= a@.map_values(f) + b@.map_values(f));
    law_parts_are_joined_by_spaces(a@.map_values(f), b@.map_values(f));
}

/// How a value is printed: nil, booleans and integers as they are written, numbers and strings as
/// the text that stands for them, and anything else as the name of what it is.
pub proof fn law_texts_of_values(value: PrintValue, text: String, i: i64, decimal_of_i: String)
    requires
        call_ensures(PrintValue::text, (&value,), text),
        call_ensures(signed_decimal_text, (i,), decimal_of_i),
    ensures
        match value {
            PrintValue::Nil => text@ == "nil"@,
            PrintValue::Boolean(b) => text@ == if b {
                "true"@
            } else {
                "false"@
            },
            PrintValue::Integer(j) => i == j ==> text@ == decimal_of_i@,
            PrintValue::Number(t) => text@ == t@,
            PrintValue::String(t) => text@ == t@,
            PrintValue::Table => text@ == "table"@,
            PrintValue::Function => text@ == "function"@,
            PrintValue::UserData => text@ == "userdata"@,
            PrintValue::Other => text@ == "unknown"@,
        },
{
}

/// An error names what is wrong, in single quotes, behind the words that say what is wrong.
pub proof fn law_errors_quote_names(prefix: &str, name: &str, error: RuntimeError)
    requires
        call_ensures(error_quoting, (prefix, name), error),
    ensures
        error.message@ == prefix@ + seq!['\''] + name@ + seq!['\''],
{
    law_names_are_quoted(prefix@, name@);
}

} // verus!
