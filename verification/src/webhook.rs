//! Reading the address of a webhook.

use vstd::prelude::*;
use crate::lines::{has_prefix, part_of, pieces_of, split_chars, starts_with};
use crate::text::{chars_of, parse_decimal, string_of, unsigned_value};

verus! {

/// What the address of a webhook names: the webhook and its token.
#[derive(Clone, Debug, PartialEq, Eq)]
pub struct WebhookAddress {
    pub id: u64,
    pub token: String,
}

/// Why an address is not that of a webhook.
#[derive(Clone, Copy, Debug, PartialEq, Eq)]
pub enum WebhookUrlError {
    /// What stands in the place of the identifier is no number of 64 bits.
    BadId,
    /// No token follows the identifier.
    NoToken,
}

/// What every webhook address starts with.
pub open spec fn webhook_base() -> Seq<char> {
    "https://discord.com/api/webhooks/"@
}

/// An address without the base at its front, as often as it stands there.
pub open spec fn without_base(url: Seq<char>) -> Seq<char>
    decreases url.len(),
    via without_base_decreases
{
    if has_prefix(url, webhook_base()) {
        without_base(url.skip(webhook_base().len() as int))
    } else {
        url
    }
}

#[via_fn]
proof fn without_base_decreases(url: Seq<char>) {
    reveal_strlit("https://discord.com/api/webhooks/");
}

/// The identifier of an address: the decimal numeral before the first
/// slash of what follows the base; a plus sign may stand before it.
pub open spec fn address_id(url: Seq<char>) -> Option<u64> {
    unsigned_value(pieces_of(without_base(url), '/')[0])
}

/// The token of an address: what stands between the first and the second
/// slash of what follows the base.
pub open spec fn address_token(url: Seq<char>) -> Option<Seq<char>> {
    let pieces = pieces_of(without_base(url), '/');
    if pieces.len() >= 2 {
        Some(pieces[1])
    } else {
        None
    }
}

/// Reads the identifier and the token out of the address of a webhook.
pub fn parse_webhook_url(url: &str) -> (r: Result<WebhookAddress, WebhookUrlError>)
    ensures
        match r {
            Ok(address) => address_id(url@) == Some(address.id) && address_token(url@) == Some(
                address.token@,
            ),
            Err(WebhookUrlError::BadId) => address_id(url@) is None,
            Err(WebhookUrlError::NoToken) => address_id(url@) is Some && address_token(url@)
                is None,
        },
{
    let base = chars_of("https://discord.com/api/webhooks/");
    let chars = chars_of(url);
    let mut from: usize = 0;
    proof {
        reveal_strlit("https://discord.com/api/webhooks/");
        assert(chars@.skip(0) =~= chars@);
    }
    while starts_with(&part_of(&chars, from, chars.len()), &base)
        invariant
            from <= chars.len(),
            base@ == webhook_base(),
            base.len() > 0,
            without_base(url@) == without_base(chars@.skip(from as int)),
        decreases chars.len() - from,
    {
        assert(chars@.subrange(from as int, chars.len() as int) =~= chars@.skip(from as int));
        assert(chars@.skip(from as int).skip(base.len() as int) =~= chars@.skip(from + base.len()));
        from += base.len();
    }
    assert(chars@.subrange(from as int, chars.len() as int) =~= chars@.skip(from as int));
    let rest = part_of(&chars, from, chars.len());
    assert(rest@ =~= chars@.skip(from as int));
    let pieces = split_chars(&rest, '/');
    let signed = pieces[0].len() > 0 && pieces[0][0] == '+';
    let digits = part_of(&pieces[0], if signed { 1 } else { 0 }, pieces[0].len());
    proof {
        let piece = pieces@[0]@;
        assert(piece.subrange(0, piece.len() as int) =~= piece);
        if signed {
            assert(piece.subrange(1, piece.len() as int) =~= piece.skip(1));
        }
    }
    let first = string_of(&digits);
    let id = match parse_decimal(first.as_str()) {
        Some(id) => id,
        None => {
            return Err(WebhookUrlError::BadId);
        },
    };
    if pieces.len() < 2 {
        return Err(WebhookUrlError::NoToken);
    }
    Ok(WebhookAddress { id, token: string_of(&pieces[1]) })
}

} // verus!
