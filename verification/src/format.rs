//! Rendering of counts for display.

use vstd::prelude::*;
use vstd::string::*;

verus! {

/// The character that stands for the digit `d`.
pub open spec fn digit_char(d: nat) -> char {
    if d == 0 {
        '0'
    } else if d == 1 {
        '1'
    } else if d == 2 {
        '2'
    } else if d == 3 {
        '3'
    } else if d == 4 {
        '4'
    } else if d == 5 {
        '5'
    } else if d == 6 {
        '6'
    } else if d == 7 {
        '7'
    } else if d == 8 {
        '8'
    } else {
        '9'
    }
}

/// The decimal digits of `n`, most significant first, without leading zeros.
pub open spec fn decimal(n: nat) -> Seq<char>
    decreases n,
{
    if n < 10 {
        seq![digit_char(n)]
    } else {
        decimal(n / 10).push(digit_char(n % 10))
    }
}

/// The three digits of `g`, zero-padded: how a group below the leading one is written.
pub open spec fn three_digits(g: nat) -> Seq<char> {
    seq![digit_char(g / 100), digit_char((g / 10) % 10), digit_char(g % 10)]
}

/// `n` in decimal with a comma between each group of three digits, counted
/// from the right: `1234567` is written `1,234,567`.
pub open spec fn grouped(n: nat) -> Seq<char>
    decreases n,
{
    if n < 1000 {
        decimal(n)
    } else {
        grouped(n / 1000) + seq![','] + three_digits(n % 1000)
    }
}

/// The text without its commas.
pub open spec fn without_commas(text: Seq<char>) -> Seq<char> {
    text.filter(|c: char| c != ',')
}

fn digit_str(d: usize) -> (s: &'static str)
    requires
        d < 10,
    ensures
        s@ == seq![digit_char(d as nat)],
{
    proof {
        reveal_strlit("0");
        reveal_strlit("1");
        reveal_strlit("2");
        reveal_strlit("3");
        reveal_strlit("4");
        reveal_strlit("5");
        reveal_strlit("6");
        reveal_strlit("7");
        reveal_strlit("8");
        reveal_strlit("9");
    }
    let s = if d == 0 {
        "0"
    } else if d == 1 {
        "1"
    } else if d == 2 {
        "2"
    } else if d == 3 {
        "3"
    } else if d == 4 {
        "4"
    } else if d == 5 {
        "5"
    } else if d == 6 {
        "6"
    } else if d == 7 {
        "7"
    } else if d == 8 {
        "8"
    } else {
        "9"
    };
    assert(s@ =~= seq![digit_char(d as nat)]);
    s
}

/// Appends the leading group, which carries no padding.
fn push_leading(out: &mut String, g: usize)
    requires
        g < 1000,
    ensures
        final(out)@ == old(out)@ + decimal(g as nat),
{
    let ghost before = out@;
    if g >= 100 {
        out.append(digit_str(g / 100));
        out.append(digit_str((g / 10) % 10));
        out.append(digit_str(g % 10));
        proof {
            let n = g as nat;
            assert(decimal(n / 100) =~= seq![digit_char(n / 100)]);
            assert((n / 10) / 10 == n / 100);
            assert(decimal(n / 10) =~= seq![digit_char(n / 100), digit_char((n / 10) % 10)]);
            assert(decimal(n) =~= seq![
                digit_char(n / 100),
                digit_char((n / 10) % 10),
                digit_char(n % 10),
            ]);
            assert(out@ =~= before + decimal(n));
        }
    } else if g >= 10 {
        out.append(digit_str(g / 10));
        out.append(digit_str(g % 10));
        proof {
            let n = g as nat;
            assert(decimal(n / 10) =~= seq![digit_char(n / 10)]);
            assert(decimal(n) =~= seq![digit_char(n / 10), digit_char(n % 10)]);
            assert(out@ =~= before + decimal(n));
        }
    } else {
        out.append(digit_str(g));
        proof {
            assert(out@ =~= before + decimal(g as nat));
        }
    }
}

/// Appends a comma and a zero-padded group of three digits.
fn push_group(out: &mut String, g: usize)
    requires
        g < 1000,
    ensures
        final(out)@ == old(out)@ + seq![','] + three_digits(g as nat),
{
    let ghost before = out@;
    proof {
        reveal_strlit(",");
    }
    out.append(",");
    out.append(digit_str(g / 100));
    out.append(digit_str((g / 10) % 10));
    out.append(digit_str(g % 10));
    proof {
        assert(","@ =~= seq![',']);
        assert(out@ =~= before + seq![','] + three_digits(g as nat));
    }
}

/// Writes `n` in decimal with a comma between each group of three digits.
pub fn format_number(n: usize) -> (text: String)
    ensures
        text@ == grouped(n as nat),
{
    let mut quotients: Vec<usize> = Vec::new();
    quotients.push(n);
    let mut rest: usize = n;
    while rest >= 1000
        invariant
            quotients.len() >= 1,
            quotients[0] == n,
            quotients[quotients.len() - 1] == rest,
            forall|k: int|
                1 <= k < quotients.len() ==> quotients[k - 1] >= 1000 && #[trigger] quotients[k]
                    == quotients[k - 1] / 1000,
        decreases rest,
    {
        rest = rest / 1000;
        quotients.push(rest);
    }
    let mut text = String::new();
    let mut j: usize = quotients.len() - 1;
    push_leading(&mut text, quotients[j]);
    assert(text@ =~= grouped(quotients[j as int] as nat));
    while j > 0
        invariant
            j < quotients.len(),
            text@ == grouped(quotients[j as int] as nat),
            forall|k: int|
                1 <= k < quotients.len() ==> quotients[k - 1] >= 1000 && #[trigger] quotients[k]
                    == quotients[k - 1] / 1000,
        decreases j,
    {
        j = j - 1;
        assert(quotients[j + 1] == quotients[j as int] / 1000 && quotients[j as int] >= 1000);
        push_group(&mut text, quotients[j] % 1000);
    }
    text
}

/// Taking the commas out of the grouped text leaves the plain decimal digits.
pub proof fn lemma_grouping_only_adds_commas(n: nat)
    ensures
        without_commas(grouped(n)) == decimal(n),
    decreases n,
{
    lemma_decimal_has_no_comma(n);
    if n < 1000 {
        lemma_filter_keeps_all(decimal(n), |c: char| c != ',');
    } else {
        let keep = |c: char| c != ',';
        let head = grouped(n / 1000);
        let tail = three_digits(n % 1000);
        lemma_grouping_only_adds_commas(n / 1000);
        Seq::filter_distributes_over_add(head + seq![','], tail, keep);
        Seq::filter_distributes_over_add(head, seq![','], keep);
        lemma_three_digits_extend_decimal(n);
        lemma_filter_keeps_all(tail, keep);
        assert(seq![','].filter(keep) =~= Seq::<char>::empty()) by {
            reveal_with_fuel(Seq::filter, 2);
            assert(seq![','].drop_last() =~= Seq::<char>::empty());
        }
        assert(without_commas(grouped(n)) =~= decimal(n / 1000) + tail);
    }
}

/// A filter that every element passes changes nothing.
proof fn lemma_filter_keeps_all(s: Seq<char>, keep: spec_fn(char) -> bool)
    requires
        forall|i: int| 0 <= i < s.len() ==> keep(#[trigger] s[i]),
    ensures
        s.filter(keep) == s,
    decreases s.len(),
{
    reveal(Seq::filter);
    if s.len() > 0 {
        lemma_filter_keeps_all(s.drop_last(), keep);
        assert(s.drop_last().push(s.last()) =~= s);
    }
}

/// No decimal digit is a comma.
proof fn lemma_decimal_has_no_comma(n: nat)
    ensures
        forall|i: int| 0 <= i < decimal(n).len() ==> decimal(n)[i] != ',',
    decreases n,
{
    if n >= 10 {
        lemma_decimal_has_no_comma(n / 10);
        assert forall|i: int| 0 <= i < decimal(n).len() implies decimal(n)[i] != ',' by {
            if i < decimal(n / 10).len() {
                assert(decimal(n)[i] == decimal(n / 10)[i]);
            }
        }
    }
}

/// From a thousand on, the decimal digits end in the three digits of the last group.
proof fn lemma_three_digits_extend_decimal(n: nat)
    requires
        n >= 1000,
    ensures
        decimal(n) == decimal(n / 1000) + three_digits(n % 1000),
{
    let a = n / 10;
    let b = a / 10;
    assert(b / 10 == n / 1000);
    assert(b % 10 == (n % 1000) / 100);
    assert(a % 10 == ((n % 1000) / 10) % 10);
    assert(n % 10 == (n % 1000) % 10);
    assert(decimal(n) == decimal(a).push(digit_char(n % 10)));
    assert(decimal(a) == decimal(b).push(digit_char(a % 10)));
    assert(decimal(b) == decimal(b / 10).push(digit_char(b % 10)));
    assert(decimal(n) =~= decimal(n / 1000) + three_digits(n % 1000));
}

} // verus!
