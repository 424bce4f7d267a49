//! Outpoint keys: the reversed hex of a transaction id followed by the
//! decimal text of an output index.
use vstd::prelude::*;
use vstd::string::*;

verus! {

/// Width in bytes of a transaction id.
pub const TXID_LEN: usize = 32;

/// Width in characters of the text of a transaction id.
pub const TXID_TEXT_LEN: usize = 64;

/// The sixteen digits, lowest first.
pub open spec fn hex_digits() -> Seq<char> {
    seq!['0', '1', '2', '3', '4', '5', '6', '7', '8', '9', 'a', 'b', 'c', 'd', 'e', 'f']
}

/// Two digits for one byte, high nibble first.
pub open spec fn hex_byte(x: u8) -> Seq<char> {
    seq![hex_digits()[(x / 16) as int], hex_digits()[(x % 16) as int]]
}

/// Hex text of a byte string read from its last byte to its first.
pub open spec fn txid_text(b: Seq<u8>) -> Seq<char>
    decreases b.len(),
{
    if b.len() == 0 {
        seq![]
    } else {
        txid_text(b.subrange(1, b.len() as int)) + hex_byte(b[0])
    }
}

/// Decimal text of a number, without leading zeros.
pub open spec fn decimal_text(n: nat) -> Seq<char>
    decreases n,
{
    if n < 10 {
        seq![hex_digits()[n as int]]
    } else {
        decimal_text(n / 10) + seq![hex_digits()[(n % 10) as int]]
    }
}

/// The key under which the output `index` of transaction `txid` is kept.
pub open spec fn outpoint_key(txid: Seq<u8>, index: nat) -> Seq<char> {
    txid_text(txid) + decimal_text(index)
}

/// Whether `c` is one of the sixteen digits.
pub open spec fn is_hex_char(c: char) -> bool {
    ('0' <= c && c <= '9') || ('a' <= c && c <= 'f')
}

/// Whether `c` is a decimal digit.
pub open spec fn is_dec_char(c: char) -> bool {
    '0' <= c && c <= '9'
}

/// The value of a digit.
pub open spec fn hex_val(c: char) -> nat {
    if '0' <= c && c <= '9' {
        (c as nat - 48) as nat
    } else if 'a' <= c && c <= 'f' {
        (c as nat - 87) as nat
    } else {
        0
    }
}

/// The number that a string of decimal digits stands for.
pub open spec fn text_value(s: Seq<char>) -> nat
    decreases s.len(),
{
    if s.len() == 0 {
        0
    } else {
        text_value(s.drop_last()) * 10 + hex_val(s.last())
    }
}

/// The transaction id that the first characters of a key spell.
pub open spec fn txid_of(k: Seq<char>) -> Seq<u8> {
    Seq::new(
        TXID_LEN as nat,
        |m: int|
            (hex_val(k[2 * (TXID_LEN - 1 - m)]) * 16 + hex_val(k[2 * (TXID_LEN - 1 - m) + 1])) as u8,
    )
}

/// The output index that the characters after the transaction id spell.
pub open spec fn index_of(k: Seq<char>) -> nat {
    text_value(k.subrange(TXID_TEXT_LEN as int, k.len() as int))
}

/// Whether `k` is the key of some outpoint.
pub open spec fn is_outpoint_key(k: Seq<char>) -> bool {
    exists|t: Seq<u8>, i: u64| t.len() == TXID_LEN && #[trigger] outpoint_key(t, i as nat) == k
}

/// The outpoint whose key is `k`, if there is one.
pub open spec fn decode_spec(k: Seq<char>) -> Option<(Seq<u8>, u64)> {
    if is_outpoint_key(k) {
        Some((txid_of(k), index_of(k) as u64))
    } else {
        None
    }
}

proof fn lemma_digits()
    ensures
        forall|d: int|
            0 <= d < 16 ==> is_hex_char(#[trigger] hex_digits()[d]) && hex_val(hex_digits()[d]) == d
                && (d < 10 <==> is_dec_char(hex_digits()[d])),
{
    assert forall|d: int| 0 <= d < 16 implies is_hex_char(#[trigger] hex_digits()[d]) && hex_val(
        hex_digits()[d],
    ) == d && (d < 10 <==> is_dec_char(hex_digits()[d])) by {
        if d == 0 {} else if d == 1 {} else if d == 2 {} else if d == 3 {} else if d == 4 {}
        else if d == 5 {} else if d == 6 {} else if d == 7 {} else if d == 8 {} else if d == 9 {}
        else if d == 10 {} else if d == 11 {} else if d == 12 {} else if d == 13 {} else if d == 14 {}
        else {}
    }
}

proof fn lemma_txid_text(b: Seq<u8>)
    ensures
        txid_text(b).len() == 2 * b.len(),
        forall|m: int|
            0 <= m < b.len() ==> {
                &&& #[trigger] txid_text(b)[2 * (b.len() - 1 - m)] == hex_digits()[(b[m] / 16) as int]
                &&& txid_text(b)[2 * (b.len() - 1 - m) + 1] == hex_digits()[(b[m] % 16) as int]
            },
        forall|p: int| 0 <= p < txid_text(b).len() ==> is_hex_char(#[trigger] txid_text(b)[p]),
    decreases b.len(),
{
    lemma_digits();
    if b.len() > 0 {
        let rest = b.subrange(1, b.len() as int);
        lemma_txid_text(rest);
        assert forall|m: int| 0 <= m < b.len() implies {
            &&& #[trigger] txid_text(b)[2 * (b.len() - 1 - m)] == hex_digits()[(b[m] / 16) as int]
            &&& txid_text(b)[2 * (b.len() - 1 - m) + 1] == hex_digits()[(b[m] % 16) as int]
        } by {
            if m > 0 {
                assert(b[m] == rest[m - 1]);
                assert(2 * (b.len() - 1 - m) == 2 * (rest.len() - 1 - (m - 1)));
            }
        }
        assert forall|p: int| 0 <= p < txid_text(b).len() implies is_hex_char(
            #[trigger] txid_text(b)[p],
        ) by {
            if p >= txid_text(rest).len() {
                assert(txid_text(b)[p] == hex_byte(b[0])[p - txid_text(rest).len()]);
            }
        }
    }
}

proof fn lemma_decimal_text(n: nat)
    ensures
        decimal_text(n).len() >= 1,
        forall|p: int| 0 <= p < decimal_text(n).len() ==> is_dec_char(#[trigger] decimal_text(n)[p]),
        text_value(decimal_text(n)) == n,
    decreases n,
{
    lemma_digits();
    let s = decimal_text(n);
    if n >= 10 {
        lemma_decimal_text(n / 10);
        assert(s.drop_last() =~= decimal_text(n / 10));
        assert(hex_val(s.last()) == n % 10);
        assert(n == (n / 10) * 10 + n % 10);
    } else {
        assert(s.drop_last() =~= Seq::<char>::empty());
        assert(text_value(Seq::<char>::empty()) == 0);
    }
}

proof fn lemma_text_value_prefix(s: Seq<char>, j: int)
    requires
        0 <= j <= s.len(),
    ensures
        text_value(s.subrange(0, j)) <= text_value(s),
    decreases s.len(),
{
    if j < s.len() {
        lemma_text_value_prefix(s.drop_last(), j);
        assert(s.drop_last().subrange(0, j) =~= s.subrange(0, j));
    } else {
        assert(s.subrange(0, j) =~= s);
    }
}

/// What a key holds, read back from its characters.
proof fn lemma_key_shape(t: Seq<u8>, i: nat)
    requires
        t.len() == TXID_LEN,
    ensures
        ({
            let k = outpoint_key(t, i);
            &&& k.len() > TXID_TEXT_LEN
            &&& forall|p: int| 0 <= p < TXID_TEXT_LEN ==> is_hex_char(#[trigger] k[p])
            &&& forall|p: int| TXID_TEXT_LEN <= p < k.len() ==> is_dec_char(#[trigger] k[p])
            &&& txid_of(k) == t
            &&& index_of(k) == i
        }),
{
    let k = outpoint_key(t, i);
    lemma_txid_text(t);
    lemma_decimal_text(i);
    lemma_digits();
    assert(k.subrange(TXID_TEXT_LEN as int, k.len() as int) =~= decimal_text(i));
    assert forall|p: int| TXID_TEXT_LEN <= p < k.len() implies is_dec_char(#[trigger] k[p]) by {
        assert(k[p] == decimal_text(i)[p - TXID_TEXT_LEN]);
    }
    assert forall|m: int| 0 <= m < TXID_LEN implies #[trigger] txid_of(k)[m] == t[m] by {
        let hi = 2 * (TXID_LEN - 1 - m);
        assert(k[hi] == txid_text(t)[hi]);
        assert(k[hi + 1] == txid_text(t)[hi + 1]);
        assert(t[m] == (t[m] / 16) * 16 + t[m] % 16);
    }
    assert(txid_of(k) =~= t);
}

/// Decoding the key of an outpoint gives that outpoint back.
pub proof fn lemma_key_round_trip(txid: Seq<u8>, index: u64)
    requires
        txid.len() == TXID_LEN,
    ensures
        decode_spec(outpoint_key(txid, index as nat)) == Some((txid, index)),
{
    lemma_key_shape(txid, index as nat);
    assert(is_outpoint_key(outpoint_key(txid, index as nat)));
}

/// Two outpoints with the same key are the same outpoint.
pub proof fn lemma_key_injective(t1: Seq<u8>, i1: nat, t2: Seq<u8>, i2: nat)
    requires
        t1.len() == TXID_LEN,
        t2.len() == TXID_LEN,
        outpoint_key(t1, i1) == outpoint_key(t2, i2),
    ensures
        t1 == t2,
        i1 == i2,
{
    lemma_key_shape(t1, i1);
    lemma_key_shape(t2, i2);
}

fn push_digit(s: &mut String, d: u8)
    requires
        d < 16,
    ensures
        final(s)@ == old(s)@ + seq![hex_digits()[d as int]],
{
    let digits: &str = "0123456789abcdef";
    proof {
        reveal_strlit("0123456789abcdef");
        assert(digits@ =~= hex_digits());
    }
    let one = digits.substring_char(d as usize, d as usize + 1);
    assert(one@ =~= seq![hex_digits()[d as int]]);
    s.append(one);
}

fn push_txid_text(s: &mut String, txid: &[u8; 32])
    ensures
        final(s)@ == old(s)@ + txid_text(txid@),
{
    let ghost start = s@;
    let mut i: usize = TXID_LEN;
    assert(txid@.subrange(TXID_LEN as int, TXID_LEN as int) =~= Seq::<u8>::empty());
    assert(start + txid_text(Seq::<u8>::empty()) =~= start);
    while i > 0
        invariant
            i <= TXID_LEN,
            txid@.len() == TXID_LEN,
            s@ == start + txid_text(txid@.subrange(i as int, TXID_LEN as int)),
        decreases i,
    {
        i = i - 1;
        let x = txid[i];
        push_digit(s, x / 16);
        push_digit(s, x % 16);
        proof {
            let longer = txid@.subrange(i as int, TXID_LEN as int);
            assert(longer.subrange(1, longer.len() as int) =~= txid@.subrange(i + 1, TXID_LEN as int));
            assert(s@ =~= start + txid_text(longer));
        }
    }
    assert(txid@.subrange(0, TXID_LEN as int) =~= txid@);
}

fn push_decimal(s: &mut String, n: u64)
    ensures
        final(s)@ == old(s)@ + decimal_text(n as nat),
    decreases n,
{
    let ghost start = s@;
    if n >= 10 {
        push_decimal(s, n / 10);
    }
    push_digit(s, (n % 10) as u8);
    assert(s@ =~= start + decimal_text(n as nat));
}

/// The text of a transaction id as it stands in a key: the hex of its bytes
/// from last to first.
pub fn txid_hex(txid: &[u8; 32]) -> (s: String)
    ensures
        s@ == txid_text(txid@),
{
    let mut s = String::new();
    push_txid_text(&mut s, txid);
    assert(s@ =~= txid_text(txid@));
    s
}

/// The key of output `index` of transaction `txid`.
pub fn encode_key(txid: &[u8; 32], index: u64) -> (k: String)
    ensures
        k@ == outpoint_key(txid@, index as nat),
{
    let mut k = String::new();
    push_txid_text(&mut k, txid);
    push_decimal(&mut k, index);
    assert(k@ =~= outpoint_key(txid@, index as nat));
    k
}

/// What every key holds, read back from its characters.
proof fn lemma_key_facts(k: Seq<char>)
    ensures
        is_outpoint_key(k) ==> {
            &&& k.len() > TXID_TEXT_LEN
            &&& vstd::utf8::is_ascii_chars(k)
            &&& forall|p: int| 0 <= p < TXID_TEXT_LEN ==> is_hex_char(#[trigger] k[p])
            &&& forall|p: int| TXID_TEXT_LEN <= p < k.len() ==> is_dec_char(#[trigger] k[p])
            &&& index_of(k) <= u64::MAX
            &&& outpoint_key(txid_of(k), index_of(k)) == k
        },
{
    if is_outpoint_key(k) {
        let (t0, i0) = choose|t: Seq<u8>, i: u64|
            t.len() == TXID_LEN && #[trigger] outpoint_key(t, i as nat) == k;
        lemma_key_shape(t0, i0 as nat);
        assert forall|p: int| 0 <= p < k.len() implies '\0' <= #[trigger] k[p] <= '\u{7f}' by {
            if p < TXID_TEXT_LEN {
                assert(is_hex_char(k[p]));
            } else {
                assert(is_dec_char(k[p]));
            }
        }
    }
}

fn digit_value(x: u8, Ghost(c): Ghost<char>) -> (r: Option<u8>)
    requires
        '\0' <= c <= '\u{7f}',
        x == c as u8,
    ensures
        match r {
            Some(v) => is_hex_char(c) && v as nat == hex_val(c) && v < 16 && (v < 10 <==> is_dec_char(c)),
            None => !is_hex_char(c),
        },
{
    if 48 <= x && x <= 57 {
        Some(x - 48)
    } else if 97 <= x && x <= 102 {
        Some(x - 87)
    } else {
        None
    }
}

/// The outpoint whose key is `key`; `None` where `key` is the key of no outpoint.
pub fn decode_key(key: &String) -> (r: Option<([u8; 32], u64)>)
    ensures
        r matches Some((t, i)) ==> decode_spec(key@) == Some((t@, i)) && outpoint_key(t@, i as nat)
            == key@,
        r is None ==> decode_spec(key@) is None,
{
    broadcast use vstd::string::is_ascii_spec_bytes;

    let ghost k = key@;
    proof {
        lemma_key_facts(k);
    }
    let s = key.as_str();
    if !s.is_ascii() {
        return None;
    }
    let b = s.as_bytes();
    assert(b@.len() == k.len());
    if b.len() <= TXID_TEXT_LEN {
        return None;
    }
    let mut t = [0u8; 32];
    let mut m: usize = 0;
    while m < TXID_LEN
        invariant
            m <= TXID_LEN,
            s@ == k,
            vstd::utf8::is_ascii_chars(k),
            key@ == k,
            b@.len() == k.len(),
            k.len() > TXID_TEXT_LEN,
            forall|p: int| 0 <= p < k.len() ==> #[trigger] b@[p] == k[p] as u8,
            t@.len() == TXID_LEN,
            forall|j: int| 0 <= j < m ==> #[trigger] t@[j] == txid_of(k)[j],
            is_outpoint_key(k) ==> forall|p: int| 0 <= p < TXID_TEXT_LEN ==> is_hex_char(#[trigger] k[p]),
        decreases TXID_LEN - m,
    {
        let at = 2 * (TXID_LEN - 1 - m);
        let hi = match digit_value(b[at], Ghost(k[at as int])) {
            Some(v) => v,
            None => {
                assert(!is_outpoint_key(k));
                return None;
            },
        };
        let lo = match digit_value(b[at + 1], Ghost(k[at + 1])) {
            Some(v) => v,
            None => {
                assert(!is_outpoint_key(k));
                return None;
            },
        };
        t[m] = hi * 16 + lo;
        m = m + 1;
    }
    let ghost digits = k.subrange(TXID_TEXT_LEN as int, k.len() as int);
    let mut n: u64 = 0;
    let mut p: usize = TXID_TEXT_LEN;
    assert(k.subrange(TXID_TEXT_LEN as int, TXID_TEXT_LEN as int) =~= Seq::<char>::empty());
    while p < b.len()
        invariant
            TXID_TEXT_LEN <= p <= k.len(),
            vstd::utf8::is_ascii_chars(k),
            key@ == k,
            b@.len() == k.len(),
            digits == k.subrange(TXID_TEXT_LEN as int, k.len() as int),
            forall|q: int| 0 <= q < k.len() ==> #[trigger] b@[q] == k[q] as u8,
            n as nat == text_value(k.subrange(TXID_TEXT_LEN as int, p as int)),
            is_outpoint_key(k) ==> forall|q: int|
                TXID_TEXT_LEN <= q < k.len() ==> is_dec_char(#[trigger] k[q]),
            is_outpoint_key(k) ==> index_of(k) <= u64::MAX,
        decreases k.len() - p,
    {
        let d = match digit_value(b[p], Ghost(k[p as int])) {
            Some(v) => v,
            None => {
                assert(!is_outpoint_key(k));
                return None;
            },
        };
        if d >= 10 {
            assert(!is_outpoint_key(k));
            return None;
        }
        proof {
            let next = k.subrange(TXID_TEXT_LEN as int, p + 1);
            assert(next.drop_last() =~= k.subrange(TXID_TEXT_LEN as int, p as int));
            assert(digits.subrange(0, p + 1 - TXID_TEXT_LEN) =~= next);
            lemma_text_value_prefix(digits, p + 1 - TXID_TEXT_LEN);
        }
        n = match n.checked_mul(10) {
            Some(v) => v,
            None => return None,
        };
        n = match n.checked_add(d as u64) {
            Some(v) => v,
            None => return None,
        };
        p = p + 1;
    }
    let again = encode_key(&t, n);
    assert(t@ =~= txid_of(k));
    if again == *key {
        proof {
            lemma_key_shape(t@, n as nat);
            assert(is_outpoint_key(k));
        }
        Some((t, n))
    } else {
        None
    }
}

} // verus!
