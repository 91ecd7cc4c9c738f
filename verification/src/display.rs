//! How a control shows the value of its parameter as text.
//!
//! A slider shows the value as a decimal number with the decimal places of
//! its parameter, followed by a space and the unit if there is one. A
//! selector shows the name of the chosen entry, and a toggle shows "On" or
//! "Off".

use vstd::prelude::*;
use vstd::string::StringExecFns;
use crate::dispatch::{BoundControl, Widget, WidgetView};
use crate::param::MAX_DECIMALS;
use crate::store::ParameterStore;

verus! {

/// The character for a digit.
pub open spec fn digit(d: int) -> char {
    if d == 0 {
        '0'
    } else if d == 1 {
        '1'
    } else if d == 2 {
        '2'
    } else if d == 3 {
        '3'
    } else if d == 4 {
        '4'
    } else if d == 5 {
        '5'
    } else if d == 6 {
        '6'
    } else if d == 7 {
        '7'
    } else if d == 8 {
        '8'
    } else {
        '9'
    }
}

/// The decimal digits of `n`, without leading zeros.
pub open spec fn digits(n: nat) -> Seq<char>
    decreases n,
{
    if n < 10 {
        seq![digit(n as int)]
    } else {
        digits(n / 10).push(digit((n % 10) as int))
    }
}

/// The last `width` decimal digits of `n`, with leading zeros.
pub open spec fn padded(n: nat, width: nat) -> Seq<char>
    decreases width,
{
    if width == 0 {
        Seq::empty()
    } else {
        padded(n / 10, (width - 1) as nat).push(digit((n % 10) as int))
    }
}

/// Ten to the power of `exponent`.
pub open spec fn power_of_ten(exponent: nat) -> nat
    decreases exponent,
{
    if exponent == 0 {
        1
    } else {
        10 * power_of_ten((exponent - 1) as nat)
    }
}

/// The text of `value` ticks with `decimals` decimal places: a minus sign
/// if the value is negative, the whole part, and, if there are decimal
/// places, a point and all of them.
pub open spec fn decimal(value: int, decimals: nat) -> Seq<char> {
    let magnitude = if value < 0 {
        (-value) as nat
    } else {
        value as nat
    };
    let sign = if value < 0 {
        seq!['-']
    } else {
        Seq::empty()
    };
    let whole = digits(magnitude / power_of_ten(decimals));
    if decimals == 0 {
        sign + whole
    } else {
        sign + whole + seq!['.'] + padded(magnitude % power_of_ten(decimals), decimals)
    }
}

impl WidgetView {
    /// The text that the widget shows for `value`.
    pub open spec fn text(self, value: int) -> Seq<char> {
        match self {
            WidgetView::Slider { decimals, unit, .. } => if unit.len() == 0 {
                decimal(value, decimals)
            } else {
                decimal(value, decimals) + seq![' '] + unit
            },
            WidgetView::Selector { choices } => if 0 <= value < choices.len() {
                choices[value]
            } else {
                Seq::empty()
            },
            WidgetView::Toggle => if value == 0 {
                "Off"@
            } else {
                "On"@
            },
        }
    }
}

/// A larger exponent gives a power of ten that is no smaller.
pub proof fn lemma_power_of_ten_grows(low: nat, high: nat)
    requires
        low <= high,
    ensures
        1 <= power_of_ten(low) <= power_of_ten(high),
    decreases high,
{
    if low < high {
        lemma_power_of_ten_grows(low, (high - 1) as nat);
    } else if low > 0 {
        lemma_power_of_ten_grows((low - 1) as nat, (low - 1) as nat);
    }
}

/// The text for a digit.
fn digit_text(d: u64) -> (text: &'static str)
    requires
        d < 10,
    ensures
        text@ == seq![digit(d as int)],
{
    proof {
        reveal_strlit("0");
        reveal_strlit("1");
        reveal_strlit("2");
        reveal_strlit("3");
        reveal_strlit("4");
        reveal_strlit("5");
        reveal_strlit("6");
        reveal_strlit("7");
        reveal_strlit("8");
        reveal_strlit("9");
    }
    let text = if d == 0 {
        "0"
    } else if d == 1 {
        "1"
    } else if d == 2 {
        "2"
    } else if d == 3 {
        "3"
    } else if d == 4 {
        "4"
    } else if d == 5 {
        "5"
    } else if d == 6 {
        "6"
    } else if d == 7 {
        "7"
    } else if d == 8 {
        "8"
    } else {
        "9"
    };
    assert(text@ =~= seq![digit(d as int)]);
    text
}

/// Appends the decimal digits of `n` to `text`.
fn push_digits(text: &mut String, n: u64)
    ensures
        final(text)@ == old(text)@ + digits(n as nat),
    decreases n,
{
    if n >= 10 {
        push_digits(text, n / 10);
    }
    text.append(digit_text(n % 10));
    assert(text@ =~= old(text)@ + digits(n as nat));
}

/// Appends the last `width` decimal digits of `n` to `text`.
fn push_padded(text: &mut String, n: u64, width: u8)
    ensures
        final(text)@ == old(text)@ + padded(n as nat, width as nat),
    decreases width,
{
    if width > 0 {
        push_padded(text, n / 10, width - 1);
        text.append(digit_text(n % 10));
    }
    assert(text@ =~= old(text)@ + padded(n as nat, width as nat));
}

/// Computes ten to the power of `exponent`.
fn power(exponent: u8) -> (result: u64)
    requires
        exponent <= MAX_DECIMALS,
    ensures
        result == power_of_ten(exponent as nat),
        result >= 1,
{
    let mut result: u64 = 1;
    let mut i: u8 = 0;
    while i < exponent
        invariant
            i <= exponent <= MAX_DECIMALS,
            result == power_of_ten(i as nat),
        decreases exponent - i,
    {
        proof {
            lemma_power_of_ten_grows((i + 1) as nat, 18);
            assert(power_of_ten(18) == 1_000_000_000_000_000_000) by {
                reveal_with_fuel(power_of_ten, 19);
            }
        }
        result = result * 10;
        i += 1;
    }
    proof {
        lemma_power_of_ten_grows(0, exponent as nat);
    }
    result
}

/// Writes `value` ticks with `decimals` decimal places as text.
pub fn decimal_text(value: i64, decimals: u8) -> (text: String)
    requires
        decimals <= MAX_DECIMALS,
    ensures
        text@ == decimal(value as int, decimals as nat),
{
    let mut text = String::new();
    let magnitude: u64 = if value < 0 {
        proof {
            reveal_strlit("-");
        }
        text.append("-");
        assert(text@ =~= seq!['-']);
        (-(value as i128)) as u64
    } else {
        value as u64
    };
    let scale: u64 = power(decimals);
    push_digits(&mut text, magnitude / scale);
    if decimals > 0 {
        proof {
            reveal_strlit(".");
        }
        let ghost before = text@;
        text.append(".");
        assert(text@ =~= before + seq!['.']);
        push_padded(&mut text, magnitude % scale, decimals);
    }
    assert(text@ =~= decimal(value as int, decimals as nat));
    text
}

impl Widget {
    /// The text that the widget shows for `value`.
    pub fn text(&self, value: i64) -> (text: String)
        requires
            self@.wf(),
        ensures
            text@ == self@.text(value as int),
    {
        match self {
            Widget::Slider { decimals, unit, .. } => {
                let mut text = decimal_text(value, *decimals);
                if !unit.as_str().is_empty() {
                    proof {
                        reveal_strlit(" ");
                    }
                    let ghost number = text@;
                    text.append(" ");
                    assert(text@ =~= number + seq![' ']);
                    text.append(unit.as_str());
                }
                text
            },
            Widget::Selector { choices } => {
                proof {
                    assert(choices.deep_view().len() == choices.len());
                }
                if 0 <= value && (value as u64) < choices.len() as u64 {
                    let chosen = choices[value as usize].clone();
                    assert(chosen@ == choices.deep_view()[value as int]);
                    chosen
                } else {
                    String::new()
                }
            },
            Widget::Toggle => if value == 0 {
                "Off".to_owned()
            } else {
                "On".to_owned()
            },
        }
    }
}

impl BoundControl {
    /// The text that the control shows: the current value of its parameter
    /// in the form of its widget.
    pub fn shown_text(&self, store: &ParameterStore) -> (text: String)
        requires
            store@.wf(),
            store@.contains(self.param),
            self.widget@.wf(),
        ensures
            text@ == self.widget@.text(store@.value(self.param)),
    {
        self.widget.text(store.read(self.param))
    }
}

} // verus!
