//! Message ids: 128-bit values, written out in the hyphenated lowercase
//! form `xxxxxxxx-xxxx-xxxx-xxxx-xxxxxxxxxxxx`.

use vstd::prelude::*;

verus! {

/// The lowercase hexadecimal digit for `n` in `0..16`.
pub open spec fn hex_digit(n: int) -> char {
    if n < 10 {
        (48 + n) as char
    } else {
        (87 + n) as char
    }
}

/// The `i`-th of the 32 four-bit groups of `id`, most significant first.
pub open spec fn id_nibble(id: u128, i: int) -> u128 {
    (id >> ((124 - 4 * i) as u128)) & 15u128
}

/// The 32 hexadecimal digits of `id`, most significant first.
pub open spec fn id_hex(id: u128) -> Seq<char> {
    Seq::new(32, |i: int| hex_digit(id_nibble(id, i) as int))
}

/// The hyphenated text of `id`: its hex digits in groups of 8, 4, 4, 4 and 12.
pub open spec fn id_text_spec(id: u128) -> Seq<char> {
    let h = id_hex(id);
    h.subrange(0, 8) + seq!['-'] + h.subrange(8, 12) + seq!['-'] + h.subrange(12, 16) + seq!['-']
        + h.subrange(16, 20) + seq!['-'] + h.subrange(20, 32)
}

/// An id of version 4 (random) in the RFC 4122 variant: the version nibble
/// is 4 and the two top bits of the variant field are `10`.
pub open spec fn is_random_id(id: u128) -> bool {
    &&& (id >> 76u128) & 15u128 == 4
    &&& (id >> 62u128) & 3u128 == 2
}

/// `uuid::Uuid::from_u128` followed by its `Display` (`to_string`): the
/// source formats the 16 big-endian bytes as lowercase hex digits with
/// hyphens after the 8th, 12th, 16th and 20th digit.
#[verifier::external_body]
pub(crate) fn uuid_text(id: u128) -> (text: String)
    ensures
        text@ == id_text_spec(id),
{
    uuid::Uuid::from_u128(id).to_string()
}

/// `uuid::Uuid::new_v4` read back with `as_u128`. The value is random; the
/// source masks it so that the version nibble is 4 and the variant bits
/// are `10`, which is all that is stated.
#[verifier::external_body]
pub(crate) fn uuid_new_v4() -> (id: u128)
    ensures
        is_random_id(id),
{
    uuid::Uuid::new_v4().as_u128()
}

/// The hyphenated lowercase text of `id`.
pub fn message_id_text(id: u128) -> (text: String)
    ensures
        text@ == id_text_spec(id),
{
    uuid_text(id)
}

/// What `uuid::Uuid::parse_str` gives for `text`, as a 128-bit value.
pub uninterp spec fn uuid_parse(text: Seq<char>) -> Option<u128>;

/// `uuid::Uuid::parse_str` read back with `as_u128`, `None` for its error.
/// The outcome is a function of the text, named `uuid_parse`. The source
/// accepts the simple, hyphenated, braced and URN forms with hex digits of
/// either case; of that, the one fact stated is that the hyphenated
/// lowercase text of an id gives back that id.
#[verifier::external_body]
fn uuid_parse_str(text: &str) -> (id: Option<u128>)
    ensures
        id == uuid_parse(text@),
        forall|x: u128| #[trigger] id_text_spec(x) == text@ ==> id == Some(x),
{
    match uuid::Uuid::parse_str(text) {
        Ok(parsed) => Some(parsed.as_u128()),
        Err(_) => None,
    }
}

/// The id written as `text`, `None` where `text` is no id. The text of an
/// id reads back as that id.
pub fn parse_message_id(text: &str) -> (id: Option<u128>)
    ensures
        id == uuid_parse(text@),
        forall|x: u128| #[trigger] id_text_spec(x) == text@ ==> id == Some(x),
{
    uuid_parse_str(text)
}

/// The id text is 36 characters long.
pub proof fn lemma_id_text_len(id: u128)
    ensures
        id_text_spec(id).len() == 36,
{
}

proof fn lemma_hex_digit_injective(n: int, m: int)
    requires
        0 <= n < 16,
        0 <= m < 16,
        hex_digit(n) == hex_digit(m),
    ensures
        n == m,
{
}

proof fn lemma_nibble_bound(x: u128)
    by (bit_vector)
    ensures
        x & 15u128 < 16,
{
}

proof fn lemma_top_nibble(a: u128, b: u128)
    by (bit_vector)
    requires
        (a >> 124u128) & 15u128 == (b >> 124u128) & 15u128,
    ensures
        a >> 124u128 == b >> 124u128,
{
}

proof fn lemma_shift_step(a: u128, b: u128, s: u128, t: u128)
    by (bit_vector)
    requires
        s < 124,
        t == s + 4,
        a >> t == b >> t,
        (a >> s) & 15u128 == (b >> s) & 15u128,
    ensures
        a >> s == b >> s,
{
}

proof fn lemma_shift_zero(a: u128)
    by (bit_vector)
    ensures
        a >> 0u128 == a,
{
}

/// Ids that agree on every four-bit group from the `k`-th lowest up agree
/// once shifted right by `4 * k` bits.
proof fn lemma_high_groups_agree(a: u128, b: u128, k: int)
    requires
        0 <= k <= 31,
        forall|i: int| 0 <= i < 32 ==> #[trigger] id_nibble(a, i) == id_nibble(b, i),
    ensures
        a >> ((4 * k) as u128) == b >> ((4 * k) as u128),
    decreases 31 - k,
{
    assert(id_nibble(a, 31 - k) == id_nibble(b, 31 - k));
    if k == 31 {
        lemma_top_nibble(a, b);
    } else {
        lemma_high_groups_agree(a, b, k + 1);
        lemma_shift_step(a, b, (4 * k) as u128, (4 * (k + 1)) as u128);
    }
}

/// Distinct ids have distinct texts.
pub proof fn lemma_id_text_injective(a: u128, b: u128)
    requires
        id_text_spec(a) == id_text_spec(b),
    ensures
        a == b,
{
    let ta = id_text_spec(a);
    let tb = id_text_spec(b);
    assert forall|i: int| 0 <= i < 32 implies #[trigger] id_nibble(a, i) == id_nibble(b, i) by {
        let j = if i < 8 {
            i
        } else if i < 12 {
            i + 1
        } else if i < 16 {
            i + 2
        } else if i < 20 {
            i + 3
        } else {
            i + 4
        };
        assert(ta[j] == id_hex(a)[i]);
        assert(tb[j] == id_hex(b)[i]);
        lemma_nibble_bound(a >> ((124 - 4 * i) as u128));
        lemma_nibble_bound(b >> ((124 - 4 * i) as u128));
        lemma_hex_digit_injective(id_nibble(a, i) as int, id_nibble(b, i) as int);
    }
    lemma_high_groups_agree(a, b, 0);
    lemma_shift_zero(a);
    lemma_shift_zero(b);
}

} // verus!
