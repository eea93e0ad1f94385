//! Small pieces of text and byte handling shared by the protocol modules.
use vstd::prelude::*;
use vstd::string::StringExecFns;

verus! {

/// The decimal digit of `d`, for `d` below ten.
pub open spec fn digit(d: nat) -> Seq<char> {
    if d == 0 {
        "0"@
    } else if d == 1 {
        "1"@
    } else if d == 2 {
        "2"@
    } else if d == 3 {
        "3"@
    } else if d == 4 {
        "4"@
    } else if d == 5 {
        "5"@
    } else if d == 6 {
        "6"@
    } else if d == 7 {
        "7"@
    } else if d == 8 {
        "8"@
    } else {
        "9"@
    }
}

/// The decimal notation of `n`, without leading zeros.
pub open spec fn decimal(n: nat) -> Seq<char>
    decreases n,
{
    if n < 10 {
        digit(n)
    } else {
        decimal(n / 10) + digit(n % 10)
    }
}

/// The decimal notation of a signed number.
pub open spec fn signed_decimal(n: int) -> Seq<char> {
    if n < 0 {
        "-"@ + decimal((-n) as nat)
    } else {
        decimal(n as nat)
    }
}

pub open spec fn text_views(texts: Seq<String>) -> Seq<Seq<char>> {
    texts.map_values(|t: String| t@)
}

pub open spec fn text_option_view(text: Option<String>) -> Option<Seq<char>> {
    match text {
        Some(text) => Some(text@),
        None => None,
    }
}

fn digit_text(d: u64) -> (text: &'static str)
    requires
        d < 10,
    ensures
        text@ == digit(d as nat),
{
    if d == 0 {
        "0"
    } else if d == 1 {
        "1"
    } else if d == 2 {
        "2"
    } else if d == 3 {
        "3"
    } else if d == 4 {
        "4"
    } else if d == 5 {
        "5"
    } else if d == 6 {
        "6"
    } else if d == 7 {
        "7"
    } else if d == 8 {
        "8"
    } else {
        "9"
    }
}

/// Writes `n` in decimal.
pub fn decimal_text(n: u64) -> (text: String)
    ensures
        text@ == decimal(n as nat),
    decreases n,
{
    if n < 10 {
        digit_text(n).to_owned()
    } else {
        let mut text = decimal_text(n / 10);
        text.append(digit_text(n % 10));
        text
    }
}

/// Writes a signed number in decimal.
pub fn signed_decimal_text(n: i64) -> (text: String)
    ensures
        text@ == signed_decimal(n as int),
{
    if n < 0 {
        let magnitude: u64 = if n == i64::MIN {
            9_223_372_036_854_775_808
        } else {
            (-n) as u64
        };
        let mut text = "-".to_owned();
        text.append(decimal_text(magnitude).as_str());
        text
    } else {
        decimal_text(n as u64)
    }
}

/// Whether two texts hold the same characters.
pub fn same_text(left: &str, right: &str) -> (same: bool)
    ensures
        same == (left@ == right@),
{
    left.to_owned() == right.to_owned()
}

/// Whether two byte strings agree on their first `len` bytes; one that is shorter than `len`
/// agrees with nothing.
pub open spec fn same_prefix(left: Seq<u8>, right: Seq<u8>, len: nat) -> bool {
    &&& len <= left.len()
    &&& len <= right.len()
    &&& left.take(len as int) == right.take(len as int)
}

/// Compares the first `len` bytes of two byte strings.
pub fn bytes_match(left: &[u8], right: &[u8], len: usize) -> (same: bool)
    ensures
        same == same_prefix(left@, right@, len as nat),
{
    if left.len() < len || right.len() < len {
        return false;
    }
    let mut i: usize = 0;
    while i < len
        invariant
            i <= len,
            len <= left@.len(),
            len <= right@.len(),
            forall|j: int| 0 <= j < i ==> left@[j] == right@[j],
        decreases len - i,
    {
        if left[i] != right[i] {
            assert(left@.take(len as int)[i as int] != right@.take(len as int)[i as int]);
            return false;
        }
        i += 1;
    }
    assert(left@.take(len as int) =~= right@.take(len as int));
    true
}

/// Compares two byte strings as a whole.
pub fn same_bytes(left: &[u8], right: &[u8]) -> (same: bool)
    ensures
        same == (left@ == right@),
{
    if left.len() != right.len() {
        return false;
    }
    let same = bytes_match(left, right, left.len());
    proof {
        assert(left@.take(left@.len() as int) =~= left@);
        assert(right@.take(right@.len() as int) =~= right@);
    }
    same
}


/// The number that a text of digits denotes in decimal.
pub open spec fn number_of(text: Seq<char>) -> nat
    decreases text.len(),
{
    if text.len() == 0 {
        0
    } else {
        number_of(text.drop_last()) * 10 + (text.last() as nat - '0' as nat) as nat
    }
}

proof fn lemma_digit(d: nat)
    requires
        d < 10,
    ensures
        digit(d).len() == 1,
        '0' <= digit(d)[0] <= '9',
        digit(d)[0] as nat == '0' as nat + d,
{
    reveal_strlit("0");
    reveal_strlit("1");
    reveal_strlit("2");
    reveal_strlit("3");
    reveal_strlit("4");
    reveal_strlit("5");
    reveal_strlit("6");
    reveal_strlit("7");
    reveal_strlit("8");
    reveal_strlit("9");
}

/// The decimal notation of a number is digits only, denotes the number, and starts with a zero only
/// where that is all of it.
pub proof fn decimals_denote_their_number(n: nat)
    ensures
        decimal(n).len() > 0,
        forall|i: int| 0 <= i < decimal(n).len() ==> '0' <= #[trigger] decimal(n)[i] <= '9',
        number_of(decimal(n)) == n,
        decimal(n)[0] == '0' <==> n == 0,
        n == 0 ==> decimal(n).len() == 1,
    decreases n,
{
    reveal_with_fuel(number_of, 2);
    if n < 10 {
        lemma_digit(n);
        assert(decimal(n).drop_last() =~= Seq::empty());
    } else {
        lemma_digit(n % 10);
        decimals_denote_their_number(n / 10);
        assert(decimal(n).drop_last() =~= decimal(n / 10));
        assert(decimal(n).last() == digit(n % 10)[0]);
    }
}

/// No two numbers have the same decimal notation.
pub proof fn decimals_differ(n: nat, m: nat)
    requires
        decimal(n) == decimal(m),
    ensures
        n == m,
{
    decimals_denote_their_number(n);
    decimals_denote_their_number(m);
}

/// The notation of a negative number is a minus sign and that of its magnitude; that of another
/// number has no sign.
pub proof fn signs_are_written(n: int)
    ensures
        n < 0 ==> {
            &&& signed_decimal(n).len() > 1
            &&& signed_decimal(n)[0] == '-'
            &&& number_of(signed_decimal(n).skip(1)) == -n
        },
        n >= 0 ==> signed_decimal(n)[0] != '-' && number_of(signed_decimal(n)) == n,
{
    if n < 0 {
        reveal_strlit("-");
        decimals_denote_their_number((-n) as nat);
        assert(signed_decimal(n).skip(1) =~= decimal((-n) as nat));
    } else {
        decimals_denote_their_number(n as nat);
    }
}

/// Two byte strings agree on their first bytes exactly where both have so many and these are equal,
/// one by one.
pub proof fn prefixes_agree_byte_by_byte(left: Seq<u8>, right: Seq<u8>, len: nat)
    ensures
        same_prefix(left, right, len) <==> {
            &&& left.len() >= len
            &&& right.len() >= len
            &&& forall|i: int| 0 <= i < len ==> #[trigger] left[i] == right[i]
        },
{
    if left.len() >= len && right.len() >= len {
        if same_prefix(left, right, len) {
            assert forall|i: int| 0 <= i < len implies #[trigger] left[i] == right[i] by {
                assert(left.take(len as int)[i] == right.take(len as int)[i]);
            }
        }
        if forall|i: int| 0 <= i < len ==> #[trigger] left[i] == right[i] {
            assert(left.take(len as int) =~= right.take(len as int));
        }
    }
}

} // verus!
