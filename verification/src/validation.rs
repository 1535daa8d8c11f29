//! Input validation at the crate's update boundary, and the string hygiene
//! helpers venue adapters use on identifiers.

use vstd::prelude::*;
use vstd::string::StringSliceAdditionalSpecFns;

use crate::book::{MAX_UNIT_MANTISSA};
use crate::fixed::Decimal;
use crate::types::{ArbFinderError, Symbol};

verus! {

/// ASCII letters and digits.
pub open spec fn is_ascii_alnum(c: char) -> bool {
    ('0' <= c && c <= '9') || ('a' <= c && c <= 'z') || ('A' <= c && c <= 'Z')
}

/// ASCII whitespace: space, tab, newline, form feed, carriage return.
pub open spec fn is_ascii_space(c: char) -> bool {
    c == ' ' || c == '\t' || c == '\n' || c == '\u{c}' || c == '\r'
}

/// Characters an asset name may hold.
pub open spec fn asset_name_ok(s: Seq<char>) -> bool {
    &&& 1 <= s.len() <= 20
    &&& forall|i: int| 0 <= i < s.len() ==> is_ascii_alnum(#[trigger] s[i])
}

/// Characters an order identifier may hold.
pub open spec fn order_id_char_ok(c: char) -> bool {
    is_ascii_alnum(c) || c == '-' || c == '_'
}

/// Characters a sanitized string keeps.
pub open spec fn sanitize_keep(c: char) -> bool {
    is_ascii_alnum(c) || is_ascii_space(c) || c == '-' || c == '_'
}

/// The slash-to-upper mapping applied to one character: ASCII letters are
/// raised, an underscore becomes a slash, anything else passes through.
pub open spec fn spec_norm_char(c: char) -> char {
    if c == '_' {
        '/'
    } else {
        spec_upper_char(c)
    }
}

/// ASCII uppercase of one character (non-letters pass through).
pub open spec fn spec_upper_char(c: char) -> char {
    if c == 'a' { 'A' } else if c == 'b' { 'B' } else if c == 'c' { 'C' }
    else if c == 'd' { 'D' } else if c == 'e' { 'E' } else if c == 'f' { 'F' }
    else if c == 'g' { 'G' } else if c == 'h' { 'H' } else if c == 'i' { 'I' }
    else if c == 'j' { 'J' } else if c == 'k' { 'K' } else if c == 'l' { 'L' }
    else if c == 'm' { 'M' } else if c == 'n' { 'N' } else if c == 'o' { 'O' }
    else if c == 'p' { 'P' } else if c == 'q' { 'Q' } else if c == 'r' { 'R' }
    else if c == 's' { 'S' } else if c == 't' { 'T' } else if c == 'u' { 'U' }
    else if c == 'v' { 'V' } else if c == 'w' { 'W' } else if c == 'x' { 'X' }
    else if c == 'y' { 'Y' } else if c == 'z' { 'Z' } else { c }
}

/// Run-time ASCII uppercase of one character.
pub fn upper_char(c: char) -> (r: char)
    ensures
        r == spec_upper_char(c),
{
    match c {
        'a' => 'A', 'b' => 'B', 'c' => 'C', 'd' => 'D', 'e' => 'E', 'f' => 'F',
        'g' => 'G', 'h' => 'H', 'i' => 'I', 'j' => 'J', 'k' => 'K', 'l' => 'L',
        'm' => 'M', 'n' => 'N', 'o' => 'O', 'p' => 'P', 'q' => 'Q', 'r' => 'R',
        's' => 'S', 't' => 'T', 'u' => 'U', 'v' => 'V', 'w' => 'W', 'x' => 'X',
        'y' => 'Y', 'z' => 'Z', _ => c,
    }
}

/// Run-time ASCII letter-or-digit test.
pub fn char_is_alnum(c: char) -> (r: bool)
    ensures
        r == is_ascii_alnum(c),
{
    ('0' <= c && c <= '9') || ('a' <= c && c <= 'z') || ('A' <= c && c <= 'Z')
}

/// Relies on String::push: appends exactly the given character to the end
/// of the string.
#[verifier::external_body]
pub(crate) fn push_char(s: &mut String, c: char)
    ensures
        final(s)@ == old(s)@.push(c),
{
    s.push(c);
}

/// A price is accepted when strictly positive and at most one billion units.
pub fn validate_price(price: Decimal) -> (r: Result<(), ArbFinderError>)
    ensures
        r is Ok <==> 0 < price@ <= MAX_UNIT_MANTISSA as int,
        r is Err ==> r matches Err(ArbFinderError::InvalidData(_)),
{
    proof {
        crate::fixed::lemma_pow10_units();
    }
    if price.le(Decimal::zero()) {
        Err(ArbFinderError::InvalidData("Price must be positive".to_owned()))
    } else if price.gt(Decimal::new(1_000_000_000, 0)) {
        Err(ArbFinderError::InvalidData("Price is too large".to_owned()))
    } else {
        Ok(())
    }
}

/// A quantity is accepted when strictly positive and at most one billion
/// units.
pub fn validate_quantity(quantity: Decimal) -> (r: Result<(), ArbFinderError>)
    ensures
        r is Ok <==> 0 < quantity@ <= MAX_UNIT_MANTISSA as int,
        r is Err ==> r matches Err(ArbFinderError::InvalidData(_)),
{
    proof {
        crate::fixed::lemma_pow10_units();
    }
    if quantity.le(Decimal::zero()) {
        Err(ArbFinderError::InvalidData("Quantity must be positive".to_owned()))
    } else if quantity.gt(Decimal::new(1_000_000_000, 0)) {
        Err(ArbFinderError::InvalidData("Quantity is too large".to_owned()))
    } else {
        Ok(())
    }
}

/// A spread in basis points is accepted between zero and one hundred
/// percent.
pub fn validate_spread_bps(spread_bps: i32) -> (r: Result<(), ArbFinderError>)
    ensures
        r is Ok <==> 0 <= spread_bps <= 10000,
        r is Err ==> r matches Err(ArbFinderError::InvalidData(_)),
{
    if spread_bps < 0 {
        Err(ArbFinderError::InvalidData("Spread cannot be negative".to_owned()))
    } else if spread_bps > 10000 {
        Err(ArbFinderError::InvalidData("Spread is too large".to_owned()))
    } else {
        Ok(())
    }
}

/// An API key is accepted between sixteen and two hundred fifty-six bytes.
pub fn validate_api_key(api_key: &str) -> (r: Result<(), ArbFinderError>)
    ensures
        r is Ok <==> 16 <= api_key.spec_bytes().len() as usize <= 256,
        r is Err ==> r matches Err(ArbFinderError::Authentication(_)),
{
    let n: usize = api_key.len();
    if n == 0 {
        Err(ArbFinderError::Authentication("API key cannot be empty".to_owned()))
    } else if n < 16 {
        Err(ArbFinderError::Authentication("API key is too short".to_owned()))
    } else if n > 256 {
        Err(ArbFinderError::Authentication("API key is too long".to_owned()))
    } else {
        Ok(())
    }
}

/// A secret key is accepted between sixteen and two hundred fifty-six bytes.
pub fn validate_secret_key(secret_key: &str) -> (r: Result<(), ArbFinderError>)
    ensures
        r is Ok <==> 16 <= secret_key.spec_bytes().len() as usize <= 256,
        r is Err ==> r matches Err(ArbFinderError::Authentication(_)),
{
    let n: usize = secret_key.len();
    if n == 0 {
        Err(ArbFinderError::Authentication("Secret key cannot be empty".to_owned()))
    } else if n < 16 {
        Err(ArbFinderError::Authentication("Secret key is too short".to_owned()))
    } else if n > 256 {
        Err(ArbFinderError::Authentication("Secret key is too long".to_owned()))
    } else {
        Ok(())
    }
}

/// True exactly when the name is one to twenty ASCII letters or digits.
pub fn is_valid_asset_name(name: &str) -> (r: bool)
    ensures
        r == asset_name_ok(name@),
{
    let n: usize = name.unicode_len();
    if n == 0 || n > 20 {
        return false;
    }
    let mut i: usize = 0;
    while i < n
        invariant
            i <= n == name@.len(),
            forall|k: int| 0 <= k < i ==> is_ascii_alnum(#[trigger] name@[k]),
        decreases n - i,
    {
        if !char_is_alnum(name.get_char(i)) {
            return false;
        }
        i = i + 1;
    }
    true
}

/// True exactly when the identifier is one to one hundred characters, each
/// an ASCII letter, digit, hyphen or underscore.
pub fn is_valid_order_id(order_id: &str) -> (r: bool)
    ensures
        r == (1 <= order_id@.len() <= 100 && forall|i: int|
            0 <= i < order_id@.len() ==> order_id_char_ok(#[trigger] order_id@[i])),
{
    let n: usize = order_id.unicode_len();
    if n == 0 || n > 100 {
        return false;
    }
    let mut i: usize = 0;
    while i < n
        invariant
            i <= n == order_id@.len(),
            forall|k: int| 0 <= k < i ==> order_id_char_ok(#[trigger] order_id@[k]),
        decreases n - i,
    {
        let c = order_id.get_char(i);
        if !(char_is_alnum(c) || c == '-' || c == '_') {
            return false;
        }
        i = i + 1;
    }
    true
}

/// Raises ASCII letters and turns underscores into slashes, character by
/// character.
pub fn normalize_symbol_pair(pair: &str) -> (r: String)
    ensures
        r@.len() == pair@.len(),
        forall|i: int| 0 <= i < pair@.len() ==> r@[i] == spec_norm_char(#[trigger] pair@[i]),
{
    let n: usize = pair.unicode_len();
    let mut out: String = String::new();
    let mut i: usize = 0;
    while i < n
        invariant
            i <= n == pair@.len(),
            out@.len() == i,
            forall|k: int| 0 <= k < i ==> out@[k] == spec_norm_char(#[trigger] pair@[k]),
        decreases n - i,
    {
        let c = pair.get_char(i);
        let mapped: char = if c == '_' {
            '/'
        } else {
            upper_char(c)
        };
        push_char(&mut out, mapped);
        i = i + 1;
    }
    out
}

/// What sanitizing keeps: accepted characters in order, up to the budget.
pub open spec fn spec_sanitize(s: Seq<char>, budget: int) -> Seq<char>
    decreases s.len(),
{
    if budget <= 0 || s.len() == 0 {
        Seq::empty()
    } else if sanitize_keep(s[0]) {
        seq![s[0]] + spec_sanitize(s.drop_first(), budget - 1)
    } else {
        spec_sanitize(s.drop_first(), budget)
    }
}

/// Keeps only letters, digits, whitespace, hyphens and underscores, up to
/// `max_length` characters.
pub fn sanitize_string(input: &str, max_length: usize) -> (r: String)
    ensures
        r@ == spec_sanitize(input@, max_length as int),
{
    let n: usize = input.unicode_len();
    let mut out: String = String::new();
    let mut taken: usize = 0;
    let mut i: usize = 0;
    proof {
        assert(input@.skip(0) =~= input@);
        assert(out@ + spec_sanitize(input@.skip(0), max_length as int) =~= spec_sanitize(
            input@,
            max_length as int,
        ));
    }
    while i < n
        invariant
            i <= n == input@.len(),
            taken <= max_length,
            out@.len() == taken,
            out@ + spec_sanitize(input@.skip(i as int), max_length - taken) == spec_sanitize(
                input@,
                max_length as int,
            ),
        decreases n - i,
    {
        proof {
            assert(input@.skip(i as int)[0] == input@[i as int]);
            assert(input@.skip(i as int).drop_first() =~= input@.skip(i + 1 as int));
        }
        let c = input.get_char(i);
        let keep: bool = char_is_alnum(c) || c == ' ' || c == '\t' || c == '\n' || c == '\u{c}'
            || c == '\r' || c == '-' || c == '_';
        if keep && taken < max_length {
            push_char(&mut out, c);
            taken = taken + 1;
            proof {
                assert(out@ + spec_sanitize(input@.skip(i + 1 as int), max_length - taken)
                    =~= spec_sanitize(input@, max_length as int));
            }
        } else if keep {
            // budget exhausted: everything that follows is dropped
            proof {
                assert(spec_sanitize(input@.skip(i as int), 0) =~= Seq::<char>::empty());
                assert(spec_sanitize(input@.skip(i + 1 as int), 0) =~= Seq::<char>::empty());
                assert(out@ + spec_sanitize(input@.skip(i + 1 as int), max_length - taken)
                    =~= spec_sanitize(input@, max_length as int));
            }
        } else {
            proof {
                assert(out@ + spec_sanitize(input@.skip(i + 1 as int), max_length - taken)
                    =~= spec_sanitize(input@, max_length as int));
            }
        }
        i = i + 1;
    }
    proof {
        assert(input@.skip(n as int) =~= Seq::<char>::empty());
        assert(out@ + spec_sanitize(input@.skip(n as int), max_length - taken) =~= out@);
    }
    out
}

/// A symbol is accepted when both asset names are valid and differ.
pub fn validate_symbol(symbol: &Symbol) -> (r: Result<(), ArbFinderError>)
    ensures
        r is Ok <==> (asset_name_ok(symbol.base@) && asset_name_ok(symbol.quote@)
            && symbol.base@ != symbol.quote@),
        r is Err ==> r matches Err(ArbFinderError::InvalidData(_)),
{
    if symbol.base.as_str().is_empty() {
        return Err(ArbFinderError::InvalidData("Base asset cannot be empty".to_owned()));
    }
    if symbol.quote.as_str().is_empty() {
        return Err(ArbFinderError::InvalidData("Quote asset cannot be empty".to_owned()));
    }
    if symbol.base.eq(&symbol.quote) {
        return Err(
            ArbFinderError::InvalidData("Base and quote assets cannot be the same".to_owned()),
        );
    }
    if !is_valid_asset_name(symbol.base.as_str()) {
        return Err(ArbFinderError::InvalidData("Invalid base asset name".to_owned()));
    }
    if !is_valid_asset_name(symbol.quote.as_str()) {
        return Err(ArbFinderError::InvalidData("Invalid quote asset name".to_owned()));
    }
    Ok(())
}

/// Parses and validates a slash-joined pair in one step.
pub fn validate_symbol_pair(pair: &str) -> (r: Result<Symbol, ArbFinderError>)
    ensures
        r matches Ok(sym) ==> (asset_name_ok(sym.base@) && asset_name_ok(sym.quote@)
            && sym.base@ != sym.quote@),
        r is Err ==> r matches Err(ArbFinderError::InvalidData(_)),
{
    match Symbol::from_pair(pair) {
        Some(sym) => match validate_symbol(&sym) {
            Ok(()) => Ok(sym),
            Err(e) => Err(e),
        },
        None => Err(ArbFinderError::InvalidData("Invalid symbol pair format".to_owned())),
    }
}

} // verus!
