use vstd::prelude::*;

verus! {

use vstd::arithmetic::div_mod::lemma_fundamental_div_mod;
use vstd::string::StrSliceExecFns;
use vstd::string::StringExecFns;

/// Length, in hexadecimal digits, of a store object identifier.
pub const OBJECT_ID_LEN: usize = 24;

/// A hexadecimal digit, lower or upper case.
pub open spec fn is_hex_digit(c: char) -> bool {
    ('0' as u32 <= c as u32 && c as u32 <= '9' as u32)
        || ('a' as u32 <= c as u32 && c as u32 <= 'f' as u32)
        || ('A' as u32 <= c as u32 && c as u32 <= 'F' as u32)
}

/// A well-formed object identifier string: exactly 24 hexadecimal digits.
pub open spec fn is_object_id(s: Seq<char>) -> bool {
    s.len() == OBJECT_ID_LEN && (forall|i: int| 0 <= i < s.len() ==> is_hex_digit(#[trigger] s[i]))
}

/// Numeric value of one hexadecimal digit; 16 for any other character.
pub open spec fn hex_digit_val(c: char) -> int {
    if '0' as u32 <= c as u32 && c as u32 <= '9' as u32 {
        c as u32 - '0' as u32
    } else if 'a' as u32 <= c as u32 && c as u32 <= 'f' as u32 {
        c as u32 - 'a' as u32 + 10
    } else if 'A' as u32 <= c as u32 && c as u32 <= 'F' as u32 {
        c as u32 - 'A' as u32 + 10
    } else {
        16
    }
}

/// Numeric value of a big-endian string of hexadecimal digits.
pub open spec fn hex_val(s: Seq<char>) -> int
    decreases s.len(),
{
    if s.len() == 0 {
        0
    } else {
        16 * hex_val(s.drop_last()) + hex_digit_val(s.last())
    }
}

/// The lower-case character for one hexadecimal digit value.
pub open spec fn hex_digit_char(d: int) -> char {
    if d == 0 { '0' } else if d == 1 { '1' } else if d == 2 { '2' } else if d == 3 { '3' }
    else if d == 4 { '4' } else if d == 5 { '5' } else if d == 6 { '6' } else if d == 7 { '7' }
    else if d == 8 { '8' } else if d == 9 { '9' } else if d == 10 { 'a' } else if d == 11 { 'b' }
    else if d == 12 { 'c' } else if d == 13 { 'd' } else if d == 14 { 'e' } else { 'f' }
}

/// 16 raised to the given power.
pub open spec fn pow16(w: nat) -> nat
    decreases w,
{
    if w == 0 {
        1
    } else {
        16 * pow16((w - 1) as nat)
    }
}

/// The big-endian, fixed-width, lower-case hexadecimal form of `n`.
pub open spec fn hex_rep(n: nat, width: nat) -> Seq<char>
    decreases width,
{
    if width == 0 {
        Seq::empty()
    } else {
        hex_rep(n / 16, (width - 1) as nat) + seq![hex_digit_char((n % 16) as int)]
    }
}

/// The object identifier assigned to the `n`-th created document: `n` in
/// 24-digit hexadecimal.
pub open spec fn object_id_of(n: nat) -> Seq<char> {
    hex_rep(n, OBJECT_ID_LEN as nat)
}

/// Two identifier strings denote the same stored identifier: both well
/// formed, equal as values (so case-insensitively equal as strings).
pub open spec fn same_object_id(a: Seq<char>, b: Seq<char>) -> bool {
    is_object_id(a) && is_object_id(b) && hex_val(a) == hex_val(b)
}

/// A hexadecimal digit's value is in range.
pub proof fn lemma_hex_digit_val_bound(c: char)
    requires
        is_hex_digit(c),
    ensures
        0 <= hex_digit_val(c) < 16,
{
}

/// The fixed-width hexadecimal form has that width and holds digits only.
pub proof fn lemma_hex_rep_wf(n: nat, width: nat)
    ensures
        hex_rep(n, width).len() == width,
        forall|i: int| 0 <= i < width ==> is_hex_digit(#[trigger] hex_rep(n, width)[i]),
    decreases width,
{
    if width > 0 {
        lemma_hex_rep_wf(n / 16, (width - 1) as nat);
        let prefix = hex_rep(n / 16, (width - 1) as nat);
        let whole = hex_rep(n, width);
        assert(is_hex_digit(hex_digit_char((n % 16) as int)));
        assert forall|i: int| 0 <= i < width implies is_hex_digit(#[trigger] whole[i]) by {
            if i < width - 1 {
                assert(whole[i] == prefix[i]);
            }
        }
    }
}

/// Encoding then evaluating is the identity, for values the width can hold.
pub proof fn lemma_hex_rep_val(n: nat, width: nat)
    requires
        n < pow16(width),
    ensures
        hex_val(hex_rep(n, width)) == n,
    decreases width,
{
    if width == 0 {
        assert(n == 0);
    } else {
        let q = n / 16;
        let r = (n % 16) as int;
        lemma_fundamental_div_mod(n as int, 16);
        assert(q < pow16((width - 1) as nat)) by {
            if q >= pow16((width - 1) as nat) {
                assert(16 * q >= 16 * pow16((width - 1) as nat));
            }
        }
        lemma_hex_rep_val(q, (width - 1) as nat);
        let prefix = hex_rep(q, (width - 1) as nat);
        let whole = hex_rep(n, width);
        assert(whole.drop_last() =~= prefix);
        assert(whole.last() == hex_digit_char(r));
        assert(hex_digit_val(hex_digit_char(r)) == r);
    }
}

/// Every `u64` fits in 24 hexadecimal digits.
pub proof fn lemma_u64_fits(n: u64)
    ensures
        (n as nat) < pow16(OBJECT_ID_LEN as nat),
{
    assert(pow16(24) == 0x1000000000000000000000000) by {
        reveal_with_fuel(pow16, 25);
    }
}

/// The identifier assigned to the `n`-th document is well formed and
/// evaluates back to `n`.
pub proof fn lemma_object_id_of(n: u64)
    ensures
        is_object_id(object_id_of(n as nat)),
        hex_val(object_id_of(n as nat)) == n,
{
    lemma_u64_fits(n);
    lemma_hex_rep_wf(n as nat, OBJECT_ID_LEN as nat);
    lemma_hex_rep_val(n as nat, OBJECT_ID_LEN as nat);
}

/// Two equal-length digit strings have equal values exactly when they agree
/// digit by digit (as values, so ignoring case).
pub proof fn lemma_hex_val_pointwise(a: Seq<char>, b: Seq<char>)
    requires
        a.len() == b.len(),
        forall|i: int| 0 <= i < a.len() ==> is_hex_digit(#[trigger] a[i]),
        forall|i: int| 0 <= i < b.len() ==> is_hex_digit(#[trigger] b[i]),
    ensures
        (hex_val(a) == hex_val(b)) <==> (forall|i: int|
            0 <= i < a.len() ==> hex_digit_val(a[i]) == hex_digit_val(b[i])),
    decreases a.len(),
{
    if a.len() > 0 {
        let n = a.len() as int;
        let a0 = a.drop_last();
        let b0 = b.drop_last();
        lemma_hex_val_pointwise(a0, b0);
        lemma_hex_digit_val_bound(a.last());
        lemma_hex_digit_val_bound(b.last());
        if hex_val(a) == hex_val(b) {
            assert(16 * hex_val(a0) + hex_digit_val(a.last()) == 16 * hex_val(b0)
                + hex_digit_val(b.last()));
            assert(hex_val(a0) == hex_val(b0) && hex_digit_val(a.last()) == hex_digit_val(
                b.last(),
            )) by {
                if hex_val(a0) < hex_val(b0) {
                    assert(16 * hex_val(a0) + 16 <= 16 * hex_val(b0));
                } else if hex_val(a0) > hex_val(b0) {
                    assert(16 * hex_val(b0) + 16 <= 16 * hex_val(a0));
                }
            }
            assert forall|i: int| 0 <= i < n implies hex_digit_val(a[i]) == hex_digit_val(b[i]) by {
                if i < n - 1 {
                    assert(a0[i] == a[i] && b0[i] == b[i]);
                }
            }
        }
        if forall|i: int| 0 <= i < n ==> hex_digit_val(a[i]) == hex_digit_val(b[i]) {
            assert forall|i: int| 0 <= i < n - 1 implies hex_digit_val(a0[i]) == hex_digit_val(
                b0[i],
            ) by {
                assert(a0[i] == a[i] && b0[i] == b[i]);
            }
            assert(hex_digit_val(a.last()) == hex_digit_val(b.last()));
        }
    }
}

/// Distinct counter values get distinct identifiers: each created document
/// is stored under an identifier of its own.
pub proof fn lemma_object_id_injective(n: u64, m: u64)
    requires
        n != m,
    ensures
        object_id_of(n as nat) != object_id_of(m as nat),
{
    lemma_object_id_of(n);
    lemma_object_id_of(m);
}

/// Whether `id` is a well-formed object identifier: exactly 24 hexadecimal
/// digits.  This is the only shape of identifier the repository accepts.
pub fn validate_object_id(id: &str) -> (r: bool)
    ensures
        r == is_object_id(id@),
{
    let n = id.unicode_len();
    if n != OBJECT_ID_LEN {
        return false;
    }
    let mut i: usize = 0;
    while i < OBJECT_ID_LEN
        invariant
            0 <= i <= OBJECT_ID_LEN,
            id@.len() == OBJECT_ID_LEN,
            forall|j: int| 0 <= j < i ==> is_hex_digit(#[trigger] id@[j]),
        decreases OBJECT_ID_LEN - i,
    {
        let c = id.get_char(i);
        let u = c as u32;
        let ok = ('0' as u32 <= u && u <= '9' as u32) || ('a' as u32 <= u && u <= 'f' as u32) || (
        'A' as u32 <= u && u <= 'F' as u32);
        if !ok {
            return false;
        }
        i = i + 1;
    }
    true
}

/// The value of one hexadecimal digit character; 16 for any other character.
fn hex_digit_val_exec(c: char) -> (d: u32)
    ensures
        d as int == hex_digit_val(c),
{
    let u = c as u32;
    if '0' as u32 <= u && u <= '9' as u32 {
        u - '0' as u32
    } else if 'a' as u32 <= u && u <= 'f' as u32 {
        u - 'a' as u32 + 10
    } else if 'A' as u32 <= u && u <= 'F' as u32 {
        u - 'A' as u32 + 10
    } else {
        16
    }
}

/// Whether `a` and `b` name the same stored identifier: both well formed and
/// equal digit by digit as values (case-insensitively equal).
pub fn object_ids_match(a: &str, b: &str) -> (r: bool)
    ensures
        r == same_object_id(a@, b@),
{
    if !validate_object_id(a) || !validate_object_id(b) {
        return false;
    }
    let mut i: usize = 0;
    while i < OBJECT_ID_LEN
        invariant
            0 <= i <= OBJECT_ID_LEN,
            is_object_id(a@),
            is_object_id(b@),
            forall|j: int| 0 <= j < i ==> hex_digit_val(a@[j]) == hex_digit_val(b@[j]),
        decreases OBJECT_ID_LEN - i,
    {
        let da = hex_digit_val_exec(a.get_char(i));
        let db = hex_digit_val_exec(b.get_char(i));
        if da != db {
            proof {
                lemma_hex_val_pointwise(a@, b@);
            }
            return false;
        }
        i = i + 1;
    }
    proof {
        lemma_hex_val_pointwise(a@, b@);
    }
    true
}

/// The lower-case character string for one hexadecimal digit value.
fn hex_digit_str(d: u64) -> (r: &'static str)
    requires
        d < 16,
    ensures
        r@ =~= seq![hex_digit_char(d as int)],
{
    proof {
        reveal_strlit("0");
        reveal_strlit("1");
        reveal_strlit("2");
        reveal_strlit("3");
        reveal_strlit("4");
        reveal_strlit("5");
        reveal_strlit("6");
        reveal_strlit("7");
        reveal_strlit("8");
        reveal_strlit("9");
        reveal_strlit("a");
        reveal_strlit("b");
        reveal_strlit("c");
        reveal_strlit("d");
        reveal_strlit("e");
        reveal_strlit("f");
    }
    if d == 0 { "0" } else if d == 1 { "1" } else if d == 2 { "2" } else if d == 3 { "3" }
    else if d == 4 { "4" } else if d == 5 { "5" } else if d == 6 { "6" } else if d == 7 { "7" }
    else if d == 8 { "8" } else if d == 9 { "9" } else if d == 10 { "a" } else if d == 11 { "b" }
    else if d == 12 { "c" } else if d == 13 { "d" } else if d == 14 { "e" } else { "f" }
}

/// The big-endian, fixed-width hexadecimal string of `n`.
fn hex_rep_string(n: u64, width: usize) -> (r: String)
    ensures
        r@ == hex_rep(n as nat, width as nat),
    decreases width,
{
    if width == 0 {
        String::new()
    } else {
        let mut s = hex_rep_string(n / 16, width - 1);
        s.append(hex_digit_str(n % 16));
        proof {
            assert(s@ =~= hex_rep(n as nat, width as nat));
        }
        s
    }
}

/// The identifier string assigned to the `n`-th created document.
pub fn object_id_string(n: u64) -> (r: String)
    ensures
        r@ == object_id_of(n as nat),
        is_object_id(r@),
        hex_val(r@) == n,
{
    proof {
        lemma_object_id_of(n);
    }
    hex_rep_string(n, OBJECT_ID_LEN)
}

} // verus!
