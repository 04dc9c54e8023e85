//! The options of a run: the scenario, its size, what to print and test,
//! and the reading of the numbers given on the command line.

use vstd::prelude::*;
use crate::error::BayesError;

verus! {

/// The options that a user gives to a run.
#[derive(Clone, Debug)]
pub struct CommandLineOptions {
    pub scenario_name: String,
    pub test_scenario: Option<String>,
    pub entities_per_domain: i32,
    pub print_training_loss: bool,
    pub test_example: Option<u32>,
    pub marginal_output_file: Option<String>,
}

/// The options that the model reads.
#[derive(Clone, Debug)]
pub struct ConfigurationOptions {
    pub entities_per_domain: i32,
    pub print_training_loss: bool,
}

/// A decimal digit.
pub open spec fn is_digit(c: char) -> bool {
    '0' <= c && c <= '9'
}

/// At least one character, and all of them digits.
pub open spec fn all_digits(s: Seq<char>) -> bool {
    s.len() > 0 && forall|i: int| 0 <= i < s.len() ==> is_digit(#[trigger] s[i])
}

/// The value of a string of digits.
pub open spec fn digits_value(s: Seq<char>) -> int
    decreases s.len(),
{
    if s.len() == 0 {
        0
    } else {
        digits_value(s.drop_last()) * 10 + (s.last() as int - '0' as int)
    }
}

/// The integer a text spells as Rust reads a signed integer: an optional
/// `+` or `-`, then one digit or more.
pub open spec fn signed_text_value(s: Seq<char>) -> Option<int> {
    if s.len() > 0 && (s[0] == '-' || s[0] == '+') {
        if all_digits(s.drop_first()) {
            Some(
                if s[0] == '-' {
                    -digits_value(s.drop_first())
                } else {
                    digits_value(s.drop_first())
                },
            )
        } else {
            None
        }
    } else if all_digits(s) {
        Some(digits_value(s))
    } else {
        None
    }
}

/// The integer a text spells as Rust reads an unsigned integer: an optional
/// `+`, then one digit or more.
pub open spec fn unsigned_text_value(s: Seq<char>) -> Option<int> {
    if s.len() > 0 && s[0] == '+' {
        if all_digits(s.drop_first()) {
            Some(digits_value(s.drop_first()))
        } else {
            None
        }
    } else if all_digits(s) {
        Some(digits_value(s))
    } else {
        None
    }
}

proof fn lemma_digits_value_nonneg(s: Seq<char>)
    requires
        forall|i: int| 0 <= i < s.len() ==> is_digit(#[trigger] s[i]),
    ensures
        digits_value(s) >= 0,
    decreases s.len(),
{
    if s.len() > 0 {
        lemma_digits_value_nonneg(s.drop_last());
    }
}

proof fn lemma_digits_prefix_le(s: Seq<char>, k: int)
    requires
        forall|i: int| 0 <= i < s.len() ==> is_digit(#[trigger] s[i]),
        0 <= k <= s.len(),
    ensures
        digits_value(s.take(k)) <= digits_value(s),
    decreases s.len(),
{
    if k == s.len() {
        assert(s.take(k) =~= s);
    } else {
        let t = s.drop_last();
        lemma_digits_prefix_le(t, k);
        lemma_digits_value_nonneg(t);
        assert(t.take(k) =~= s.take(k));
    }
}

/// Reads the digits of `s` from `start` on: their value when all are digits,
/// there is one at least and the value is at most `limit`, else `None`.
fn digits_from(s: &str, start: usize, limit: u64) -> (r: Option<u64>)
    requires
        start <= s@.len(),
        limit <= 0x1_0000_0000,
    ensures
        match r {
            Some(v) => all_digits(s@.skip(start as int)) && v == digits_value(s@.skip(start as int))
                && v <= limit,
            None => !(all_digits(s@.skip(start as int)) && digits_value(s@.skip(start as int))
                <= limit),
        },
{
    let n = s.unicode_len();
    let ghost rest = s@.skip(start as int);
    if start == n {
        return None;
    }
    let mut value: u64 = 0;
    let mut i: usize = start;
    while i < n
        invariant
            n == s@.len(),
            start <= i <= n,
            rest == s@.skip(start as int),
            limit <= 0x1_0000_0000,
            forall|k: int| 0 <= k < i - start ==> is_digit(#[trigger] rest[k]),
            value == digits_value(rest.take(i - start)),
            value <= limit,
        decreases n - i,
    {
        let c = s.get_char(i);
        assert(rest[i - start] == c);
        if !('0' <= c && c <= '9') {
            return None;
        }
        let d: u64 = (c as u32 - '0' as u32) as u64;
        proof {
            assert(rest.take(i - start + 1).drop_last() =~= rest.take(i - start));
            assert(rest.take(i - start + 1).last() == c);
        }
        if value * 10 + d > limit {
            proof {
                if all_digits(rest) {
                    lemma_digits_prefix_le(rest, i - start + 1);
                }
            }
            return None;
        }
        value = value * 10 + d;
        i += 1;
    }
    proof {
        assert(rest.take(i - start) =~= rest);
    }
    Some(value)
}

/// The `i32` that `s` spells, as `str::parse::<i32>` reads it; `None` when it
/// spells none.
pub fn parse_i32(s: &str) -> (r: Option<i32>)
    ensures
        r matches Some(v) ==> signed_text_value(s@) == Some(v as int),
        r is None ==> !spells_i32(s@),
{
    let n = s.unicode_len();
    if n > 0 && (s.get_char(0) == '-' || s.get_char(0) == '+') {
        let negative = s.get_char(0) == '-';
        proof {
            assert(s@.skip(1) =~= s@.drop_first());
        }
        let limit: u64 = if negative {
            0x8000_0000
        } else {
            0x7fff_ffff
        };
        match digits_from(s, 1, limit) {
            Some(v) => {
                if negative {
                    Some((0 - (v as i64)) as i32)
                } else {
                    Some(v as i32)
                }
            },
            None => None,
        }
    } else {
        proof {
            assert(s@.skip(0) =~= s@);
        }
        match digits_from(s, 0, 0x7fff_ffff) {
            Some(v) => Some(v as i32),
            None => None,
        }
    }
}

/// The `u32` that `s` spells, as `str::parse::<u32>` reads it; `None` when it
/// spells none.
pub fn parse_u32(s: &str) -> (r: Option<u32>)
    ensures
        r matches Some(v) ==> unsigned_text_value(s@) == Some(v as int),
        r is None ==> !spells_u32(s@),
{
    let n = s.unicode_len();
    if n > 0 && s.get_char(0) == '+' {
        proof {
            assert(s@.skip(1) =~= s@.drop_first());
        }
        match digits_from(s, 1, 0xffff_ffff) {
            Some(v) => Some(v as u32),
            None => None,
        }
    } else {
        proof {
            assert(s@.skip(0) =~= s@);
        }
        match digits_from(s, 0, 0xffff_ffff) {
            Some(v) => Some(v as u32),
            None => None,
        }
    }
}

/// Whether the text spells an `i32`.
pub open spec fn spells_i32(s: Seq<char>) -> bool {
    signed_text_value(s) matches Some(v) && i32::MIN <= v <= i32::MAX
}

/// Whether the text spells a `u32`.
pub open spec fn spells_u32(s: Seq<char>) -> bool {
    unsigned_text_value(s) matches Some(v) && v <= u32::MAX
}

/// Whether an optional test example is absent or spells a `u32`.
pub open spec fn test_example_ok(t: Option<String>) -> bool {
    match t {
        Some(t) => spells_u32(t@),
        None => true,
    }
}

/// The error names the option `name`.
pub open spec fn names_option(e: BayesError, name: Seq<char>) -> bool {
    e matches BayesError::InvalidOption(n) && n@ == name
}

/// The options from the values given for them: `entities_per_domain` must
/// spell an `i32` and `test_example`, when given, a `u32`; otherwise the
/// error names the first option that does not.
pub fn options_from_arguments(
    scenario_name: String,
    test_scenario: Option<String>,
    entities_per_domain: &str,
    print_training_loss: bool,
    test_example: Option<String>,
    marginal_output_file: Option<String>,
) -> (r: Result<CommandLineOptions, BayesError>)
    ensures
        r is Ok <==> spells_i32(entities_per_domain@) && test_example_ok(test_example),
        r matches Ok(o) ==> {
            &&& signed_text_value(entities_per_domain@) == Some(o.entities_per_domain as int)
            &&& o.scenario_name@ == scenario_name@
            &&& o.test_scenario == test_scenario
            &&& o.print_training_loss == print_training_loss
            &&& o.marginal_output_file == marginal_output_file
            &&& match test_example {
                Some(t) => o.test_example matches Some(v) && unsigned_text_value(t@) == Some(v as int),
                None => o.test_example is None,
            }
        },
        r matches Err(e) ==> if !spells_i32(entities_per_domain@) {
            names_option(e, "entities_per_domain"@)
        } else {
            names_option(e, "test_example"@)
        },
{
    let entities = match parse_i32(entities_per_domain) {
        Some(v) => v,
        None => {
            return Err(BayesError::InvalidOption(String::from_str("entities_per_domain")));
        },
    };
    let example = match &test_example {
        Some(t) => match parse_u32(t.as_str()) {
            Some(v) => Some(v),
            None => {
                return Err(BayesError::InvalidOption(String::from_str("test_example")));
            },
        },
        None => None,
    };
    Ok(
        CommandLineOptions {
            scenario_name,
            test_scenario,
            entities_per_domain: entities,
            print_training_loss,
            test_example: example,
            marginal_output_file,
        },
    )
}

proof fn lemma_digit_text(d: nat)
    requires
        d < 10,
    ensures
        crate::text::digit_text(d).len() == 1,
        is_digit(crate::text::digit_text(d)[0]),
        crate::text::digit_text(d)[0] as int - '0' as int == d,
{
    reveal_strlit("0");
    reveal_strlit("1");
    reveal_strlit("2");
    reveal_strlit("3");
    reveal_strlit("4");
    reveal_strlit("5");
    reveal_strlit("6");
    reveal_strlit("7");
    reveal_strlit("8");
    reveal_strlit("9");
}

proof fn lemma_decimal_digits(n: nat)
    ensures
        all_digits(crate::text::decimal_text(n)),
        digits_value(crate::text::decimal_text(n)) == n,
    decreases n,
{
    let t = crate::text::decimal_text(n);
    if n < 10 {
        lemma_digit_text(n);
        assert(t.drop_last() =~= Seq::<char>::empty());
        assert(t.last() == t[0]);
        assert(digits_value(t.drop_last()) == 0);
        assert(digits_value(t) == n);
    } else {
        lemma_decimal_digits(n / 10);
        lemma_digit_text(n % 10);
        let a = crate::text::decimal_text(n / 10);
        let b = crate::text::digit_text(n % 10);
        assert(t == a + b);
        assert(t.drop_last() =~= a);
        assert(t.last() == b[0]);
        vstd::arithmetic::div_mod::lemma_fundamental_div_mod(n as int, 10);
        assert(digits_value(t) == digits_value(a) * 10 + (b[0] as int - '0' as int));
        assert(digits_value(a) == n / 10);
        assert(digits_value(t) == n);
        assert forall|i: int| 0 <= i < t.len() implies is_digit(#[trigger] t[i]) by {
            if i < a.len() {
                assert(t[i] == a[i]);
            } else {
                assert(t[i] == b[0]);
            }
        }
    }
}

/// Reading back the decimal text of a number gives the number: as a signed
/// integer, also with a `-` or a `+` before it, and as an unsigned one.
pub proof fn lemma_read_decimal(n: nat)
    ensures
        signed_text_value(crate::text::decimal_text(n)) == Some(n as int),
        signed_text_value("-"@ + crate::text::decimal_text(n)) == Some(-(n as int)),
        signed_text_value("+"@ + crate::text::decimal_text(n)) == Some(n as int),
        unsigned_text_value(crate::text::decimal_text(n)) == Some(n as int),
{
    let t = crate::text::decimal_text(n);
    lemma_decimal_digits(n);
    reveal_strlit("-");
    reveal_strlit("+");
    assert(is_digit(t[0]));
    assert(("-"@ + t).drop_first() =~= t);
    assert(("+"@ + t).drop_first() =~= t);
    assert(("-"@ + t)[0] == '-');
    assert(("+"@ + t)[0] == '+');
}

} // verus!
