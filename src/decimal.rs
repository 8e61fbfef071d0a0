use vstd::prelude::*;
use vstd::string::*;

verus! {

/// The character of a decimal digit.
pub open spec fn digit_char(d: nat) -> char {
    ((d + 48) as u8) as char
}

/// Whether a character is a decimal digit.
pub open spec fn is_digit(c: char) -> bool {
    '0' <= c && c <= '9'
}

/// The value of a decimal digit character.
pub open spec fn digit_value(c: char) -> nat {
    (c as nat - 48) as nat
}

/// `n` written in decimal, without leading zeros.
pub open spec fn decimal(n: nat) -> Seq<char>
    decreases n,
{
    if n < 10 {
        seq![digit_char(n)]
    } else {
        decimal(n / 10).push(digit_char(n % 10))
    }
}

/// Whether `s` is a non-empty run of decimal digits.
pub open spec fn is_decimal(s: Seq<char>) -> bool {
    s.len() > 0 && forall|i: int| 0 <= i < s.len() ==> is_digit(#[trigger] s[i])
}

/// The number that a run of decimal digits stands for.
pub open spec fn decimal_value(s: Seq<char>) -> nat
    decreases s.len(),
{
    if s.len() == 0 {
        0
    } else {
        decimal_value(s.drop_last()) * 10 + digit_value(s.last())
    }
}

/// The one-character string of the digit `d`.
fn digit_str(d: u32) -> (r: &'static str)
    requires
        d < 10,
    ensures
        r@ == seq![digit_char(d as nat)],
{
    proof {
        reveal_strlit("0");
        reveal_strlit("1");
        reveal_strlit("2");
        reveal_strlit("3");
        reveal_strlit("4");
        reveal_strlit("5");
        reveal_strlit("6");
        reveal_strlit("7");
        reveal_strlit("8");
        reveal_strlit("9");
    }
    let r = match d {
        0 => "0",
        1 => "1",
        2 => "2",
        3 => "3",
        4 => "4",
        5 => "5",
        6 => "6",
        7 => "7",
        8 => "8",
        _ => "9",
    };
    assert(r@ =~= seq![digit_char(d as nat)]);
    r
}

/// Appends `n` written in decimal to `out`.
pub fn push_decimal(out: &mut String, n: u32)
    ensures
        final(out)@ == old(out)@ + decimal(n as nat),
    decreases n,
{
    if n >= 10 {
        push_decimal(out, n / 10);
    }
    out.append(digit_str(n % 10));
    proof {
        if n >= 10 {
            assert(old(out)@ + decimal(n as nat) =~= old(out)@ + decimal((n / 10) as nat) + seq![
                digit_char((n % 10) as nat),
            ]);
        } else {
            assert(old(out)@ + decimal(n as nat) =~= old(out)@ + seq![digit_char(n as nat)]);
        }
    }
}

/// Reads a task id written in decimal: a non-empty run of digits whose value
/// fits in a `u32`. Anything else gives `None`.
pub fn parse_task_id(s: &str) -> (r: Option<u32>)
    ensures
        r matches Some(v) <==> is_decimal(s@) && decimal_value(s@) <= u32::MAX,
        r matches Some(v) ==> v as nat == decimal_value(s@),
{
    let len = s.unicode_len();
    if len == 0 {
        return None;
    }
    let mut value: u32 = 0;
    let mut i: usize = 0;
    while i < len
        invariant
            len == s@.len(),
            0 <= i <= len,
            forall|k: int| 0 <= k < i ==> is_digit(#[trigger] s@[k]),
            value as nat == decimal_value(s@.take(i as int)),
        decreases len - i,
    {
        let c = s.get_char(i);
        assert(s@.take(i + 1).drop_last() =~= s@.take(i as int));
        if c < '0' || c > '9' {
            return None;
        }
        let d: u32 = (c as u32) - 48;
        if value > 429496729 || (value == 429496729 && d > 5) {
            proof {
                if is_decimal(s@) {
                    lemma_decimal_value_prefix_bound(s@, i as int + 1);
                }
            }
            return None;
        }
        value = value * 10 + d;
        i = i + 1;
    }
    assert(s@.take(i as int) =~= s@);
    Some(value)
}

/// A number written in decimal reads back as itself: every id that a listing
/// shows is accepted by `parse_task_id` with its own value.
pub proof fn lemma_decimal_reads_back(n: nat)
    ensures
        is_decimal(decimal(n)),
        decimal_value(decimal(n)) == n,
    decreases n,
{
    if n >= 10 {
        lemma_decimal_reads_back(n / 10);
        let s = decimal(n);
        assert(s.drop_last() =~= decimal(n / 10));
        assert(s.last() == digit_char(n % 10));
        assert(digit_value(s.last()) == n % 10);
        assert((n / 10) * 10 + n % 10 == n) by (nonlinear_arith);
        assert(decimal_value(s) == decimal_value(decimal(n / 10)) * 10 + n % 10);
        assert forall|i: int| 0 <= i < s.len() implies is_digit(#[trigger] s[i]) by {
            if i < s.len() - 1 {
                assert(s[i] == decimal(n / 10)[i]);
            }
        }
    } else {
        let s = decimal(n);
        assert(s.drop_last() =~= Seq::<char>::empty());
        assert(s.last() == digit_char(n));
        assert(decimal_value(s.drop_last()) == 0);
    }
}

/// A run of digits is worth at least any of its prefixes.
proof fn lemma_decimal_value_prefix_bound(s: Seq<char>, k: int)
    requires
        0 <= k <= s.len(),
        forall|i: int| 0 <= i < s.len() ==> is_digit(#[trigger] s[i]),
    ensures
        decimal_value(s) >= decimal_value(s.take(k)),
    decreases s.len(),
{
    if k < s.len() {
        assert(s.drop_last().take(k) =~= s.take(k));
        lemma_decimal_value_prefix_bound(s.drop_last(), k);
        assert(decimal_value(s) >= decimal_value(s.drop_last())) by (nonlinear_arith)
            requires
                decimal_value(s) == decimal_value(s.drop_last()) * 10 + digit_value(s.last()),
        ;
    } else {
        assert(s.take(k) =~= s);
    }
}

} // verus!
