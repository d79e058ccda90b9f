//! Item metadata as published beside each asset, and its validation rules.
use vstd::prelude::*;
use vstd::utf8::encode_utf8;

verus! {

/// Longest name, in bytes.
pub const MAX_NAME_LENGTH: usize = 32;

/// Longest symbol, in bytes.
pub const MAX_SYMBOL_LENGTH: usize = 10;

/// Longest URL, in bytes.
pub const MAX_URI_LENGTH: usize = 200;

/// Largest royalty, in basis points.
pub const MAX_SELLER_FEE_BASIS_POINTS: u16 = 10000;

/// Why metadata was rejected.
#[derive(Debug, Clone, Copy, PartialEq, Eq, Structural)]
pub enum ValidateParserError {
    NameTooLong,
    SymbolTooLong,
    UrlTooLong,
    InvalidSellerFeeBasisPoints(u16),
    InvalidCreatorShare,
    MissingCreators,
    MismatchedCreators,
}

/// A creator and its share of royalties, in percent.
#[derive(Debug, Clone, Default)]
pub struct Creator {
    pub address: String,
    pub share: u8,
}

/// One trait of an item.
#[derive(Debug, Clone, Default)]
pub struct Attribute {
    pub trait_type: String,
    pub value: String,
}

/// One file of an item.
#[derive(Debug, Clone, Default)]
pub struct FileAttr {
    pub uri: String,
    pub file_type: String,
}

/// The files and creators of an item.
#[derive(Debug, Clone, Default)]
pub struct Property {
    pub files: Vec<FileAttr>,
    pub creators: Option<Vec<Creator>>,
}

/// The metadata of one item.
#[derive(Debug, Clone, Default)]
pub struct Metadata {
    pub name: String,
    pub symbol: Option<String>,
    pub description: String,
    pub seller_fee_basis_points: Option<u16>,
    pub image: String,
    pub animation_url: Option<String>,
    pub external_url: Option<String>,
    pub attributes: Vec<Attribute>,
    pub properties: Property,
}

/// Length in bytes of a string.
pub open spec fn byte_len(s: &String) -> usize {
    encode_utf8(s@).len() as usize
}

/// Sum of the creators' shares.
pub open spec fn shares_sum(creators: Seq<Creator>) -> int
    decreases creators.len(),
{
    if creators.len() == 0 {
        0
    } else {
        shares_sum(creators.drop_last()) + creators.last().share as int
    }
}

/// A prefix of the creators never holds more shares than all of them.
pub proof fn lemma_shares_prefix(creators: Seq<Creator>, i: int)
    requires
        0 <= i <= creators.len(),
    ensures
        shares_sum(creators.subrange(0, i)) <= shares_sum(creators),
    decreases creators.len(),
{
    if i < creators.len() {
        assert(creators.drop_last().subrange(0, i) =~= creators.subrange(0, i));
        lemma_shares_prefix(creators.drop_last(), i);
    } else {
        assert(creators.subrange(0, i) =~= creators);
    }
}

/// The metadata's creators are the configured ones: same addresses and
/// shares, in the same order.
pub open spec fn creators_match(config: Seq<Creator>, creators: Seq<Creator>) -> bool {
    &&& config.len() == creators.len()
    &&& forall|i: int|
        0 <= i < config.len() ==> (#[trigger] config[i]).address@ == creators[i].address@
            && config[i].share == creators[i].share
}

/// Rejects a name longer than the maximum.
pub fn check_name(name: &String) -> (r: Result<(), ValidateParserError>)
    ensures
        r is Ok <==> byte_len(&name) <= MAX_NAME_LENGTH,
        r is Err ==> r == Err::<(), ValidateParserError>(ValidateParserError::NameTooLong),
{
    if name.as_str().len() > MAX_NAME_LENGTH {
        Err(ValidateParserError::NameTooLong)
    } else {
        Ok(())
    }
}

/// Rejects a symbol longer than the maximum.
pub fn check_symbol(symbol: &String) -> (r: Result<(), ValidateParserError>)
    ensures
        r is Ok <==> byte_len(&symbol) <= MAX_SYMBOL_LENGTH,
        r is Err ==> r == Err::<(), ValidateParserError>(ValidateParserError::SymbolTooLong),
{
    if symbol.as_str().len() > MAX_SYMBOL_LENGTH {
        Err(ValidateParserError::SymbolTooLong)
    } else {
        Ok(())
    }
}

/// Rejects a URL longer than the maximum.
pub fn check_url(url: &String) -> (r: Result<(), ValidateParserError>)
    ensures
        r is Ok <==> byte_len(&url) <= MAX_URI_LENGTH,
        r is Err ==> r == Err::<(), ValidateParserError>(ValidateParserError::UrlTooLong),
{
    if url.as_str().len() > MAX_URI_LENGTH {
        Err(ValidateParserError::UrlTooLong)
    } else {
        Ok(())
    }
}

/// Rejects a royalty above 100%.
pub fn check_seller_fee_basis_points(points: u16) -> (r: Result<(), ValidateParserError>)
    ensures
        r is Ok <==> points <= MAX_SELLER_FEE_BASIS_POINTS,
        r is Err ==> r == Err::<(), ValidateParserError>(
            ValidateParserError::InvalidSellerFeeBasisPoints(points),
        ),
{
    if points > MAX_SELLER_FEE_BASIS_POINTS {
        Err(ValidateParserError::InvalidSellerFeeBasisPoints(points))
    } else {
        Ok(())
    }
}

/// Rejects creators whose shares do not add up to 100.
pub fn check_creators_shares(creators: &Vec<Creator>) -> (r: Result<(), ValidateParserError>)
    ensures
        r is Ok <==> shares_sum(creators@) == 100,
        r is Err ==> r == Err::<(), ValidateParserError>(ValidateParserError::InvalidCreatorShare),
{
    let mut total: u64 = 0;
    let mut i: usize = 0;
    while i < creators.len()
        invariant
            i <= creators@.len(),
            total == shares_sum(creators@.subrange(0, i as int)),
            total <= 100,
        decreases creators@.len() - i,
    {
        assert(creators@.subrange(0, i + 1).drop_last() =~= creators@.subrange(0, i as int));
        total = total + creators[i].share as u64;
        i = i + 1;
        if total > 100 {
            proof {
                lemma_shares_prefix(creators@, i as int);
            }
            return Err(ValidateParserError::InvalidCreatorShare);
        }
    }
    assert(creators@.subrange(0, creators@.len() as int) =~= creators@);
    if total != 100 {
        Err(ValidateParserError::InvalidCreatorShare)
    } else {
        Ok(())
    }
}

/// Rejects metadata creators that differ from the configured ones.
pub fn validate_metadata_creators(config_creators: &Vec<Creator>, creators: &Vec<Creator>) -> (r:
    Result<(), ValidateParserError>)
    ensures
        r is Ok <==> creators_match(config_creators@, creators@),
        r is Err ==> r == Err::<(), ValidateParserError>(ValidateParserError::MismatchedCreators),
{
    if config_creators.len() != creators.len() {
        return Err(ValidateParserError::MismatchedCreators);
    }
    let mut i: usize = 0;
    while i < creators.len()
        invariant
            i <= creators@.len(),
            config_creators@.len() == creators@.len(),
            forall|k: int|
                0 <= k < i ==> (#[trigger] config_creators@[k]).address@ == creators@[k].address@
                    && config_creators@[k].share == creators@[k].share,
        decreases creators@.len() - i,
    {
        if config_creators[i].address != creators[i].address || config_creators[i].share
            != creators[i].share {
            return Err(ValidateParserError::MismatchedCreators);
        }
        i = i + 1;
    }
    Ok(())
}

/// The first rule, in the order `validate` checks them, that the metadata
/// breaks.
pub open spec fn validation_error(m: Metadata, config_creators: Seq<Creator>) -> Option<
    ValidateParserError,
> {
    if byte_len(&m.name) > MAX_NAME_LENGTH {
        Some(ValidateParserError::NameTooLong)
    } else if byte_len(&m.image) > MAX_URI_LENGTH {
        Some(ValidateParserError::UrlTooLong)
    } else if m.seller_fee_basis_points is Some && m.seller_fee_basis_points->Some_0
        > MAX_SELLER_FEE_BASIS_POINTS {
        Some(ValidateParserError::InvalidSellerFeeBasisPoints(m.seller_fee_basis_points->Some_0))
    } else if m.symbol is Some && byte_len(&m.symbol->Some_0) > MAX_SYMBOL_LENGTH {
        Some(ValidateParserError::SymbolTooLong)
    } else if m.properties.creators is None {
        Some(ValidateParserError::MissingCreators)
    } else if shares_sum(m.properties.creators->Some_0@) != 100 {
        Some(ValidateParserError::InvalidCreatorShare)
    } else if !creators_match(config_creators, m.properties.creators->Some_0@) {
        Some(ValidateParserError::MismatchedCreators)
    } else if m.animation_url is Some && byte_len(&m.animation_url->Some_0)
        > MAX_URI_LENGTH {
        Some(ValidateParserError::UrlTooLong)
    } else if m.external_url is Some && byte_len(&m.external_url->Some_0)
        > MAX_URI_LENGTH {
        Some(ValidateParserError::UrlTooLong)
    } else {
        None
    }
}

impl Metadata {
    /// Checks the name, image, royalty, symbol, creators and the optional
    /// URLs, in that order, against the limits and the configured creators.
    pub fn validate(&self, config_data_creators: &Vec<Creator>) -> (r: Result<
        (),
        ValidateParserError,
    >)
        ensures
            r is Ok <==> validation_error(*self, config_data_creators@) is None,
            r matches Err(e) ==> validation_error(*self, config_data_creators@) == Some(e),
    {
        check_name(&self.name)?;
        check_url(&self.image)?;
        if let Some(sfbp) = &self.seller_fee_basis_points {
            check_seller_fee_basis_points(*sfbp)?;
        }
        if let Some(symbol) = &self.symbol {
            check_symbol(symbol)?;
        }
        match &self.properties.creators {
            Some(creators) => {
                check_creators_shares(creators)?;
                validate_metadata_creators(config_data_creators, creators)?;
            },
            None => return Err(ValidateParserError::MissingCreators),
        }
        if let Some(animation_url) = &self.animation_url {
            check_url(animation_url)?;
        }
        if let Some(external_url) = &self.external_url {
            check_url(external_url)?;
        }
        Ok(())
    }
}

} // verus!
