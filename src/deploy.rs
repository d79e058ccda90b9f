//! The decisions of a deployment: which cached items may be deployed, which
//! steps run, and where proceeds are paid.
use std::sync::atomic::AtomicBool;
use std::sync::Arc;
use vstd::prelude::*;
use crate::metadata::{byte_len, check_name, check_url, ValidateParserError, MAX_NAME_LENGTH, MAX_URI_LENGTH};

verus! {

/// What a deployment is run with.
pub struct DeployArgs {
    pub config: String,
    pub cache: String,
    pub keypair: Option<String>,
    pub rpc_url: Option<String>,
    pub interrupted: Arc<AtomicBool>,
    pub use_merkle_allowlist: bool,
    pub merkle_allowlist_config: String,
}

/// One item of the local cache, under its key.
#[derive(Debug, Clone)]
pub struct CacheItem {
    pub key: String,
    pub name: String,
    pub metadata_link: String,
    pub on_chain: bool,
}

/// Why a deployment cannot go on.
#[derive(Debug, Clone, PartialEq, Eq)]
pub enum DeployError {
    EmptyCache,
    MissingName(String),
    MissingMetadataLink(String),
    Invalid(ValidateParserError),
    ItemCountMismatch(u64, u64),
    TreasuryConflict,
}

/// Whether a cached item is complete and within the limits.
pub open spec fn item_ok(item: CacheItem) -> bool {
    &&& item.name@.len() > 0
    &&& byte_len(&item.name) <= MAX_NAME_LENGTH
    &&& item.metadata_link@.len() > 0
    &&& byte_len(&item.metadata_link) <= MAX_URI_LENGTH
}

/// The error the item gives, where it gives one.
pub open spec fn item_error(item: CacheItem) -> Option<DeployError> {
    if item.name@.len() == 0 {
        Some(DeployError::MissingName(item.key))
    } else if byte_len(&item.name) > MAX_NAME_LENGTH {
        Some(DeployError::Invalid(ValidateParserError::NameTooLong))
    } else if item.metadata_link@.len() == 0 {
        Some(DeployError::MissingMetadataLink(item.key))
    } else if byte_len(&item.metadata_link) > MAX_URI_LENGTH {
        Some(DeployError::Invalid(ValidateParserError::UrlTooLong))
    } else {
        None
    }
}

/// Checks one cached item: a name and a metadata link are present and
/// within the limits.
pub fn check_cache_item(item: &CacheItem) -> (r: Result<(), DeployError>)
    ensures
        r is Ok <==> item_error(*item) is None,
        r matches Err(e) ==> item_error(*item) == Some(e),
{
    if item.name.as_str().is_empty() {
        return Err(DeployError::MissingName(item.key.clone()));
    }
    match check_name(&item.name) {
        Ok(()) => {},
        Err(e) => {
            return Err(DeployError::Invalid(e));
        },
    }
    if item.metadata_link.as_str().is_empty() {
        return Err(DeployError::MissingMetadataLink(item.key.clone()));
    }
    match check_url(&item.metadata_link) {
        Ok(()) => {},
        Err(e) => {
            return Err(DeployError::Invalid(e));
        },
    }
    Ok(())
}

/// Refuses an empty cache, then checks the cached items in order and reports
/// the first that fails.
pub fn check_cache_items(items: &Vec<CacheItem>) -> (r: Result<(), DeployError>)
    ensures
        items@.len() == 0 ==> r == Err::<(), DeployError>(DeployError::EmptyCache),
        r is Ok <==> items@.len() > 0 && forall|i: int|
            0 <= i < items@.len() ==> item_error(#[trigger] items@[i]) is None,
        r matches Err(e) ==> items@.len() == 0 || exists|i: int|
            0 <= i < items@.len() && item_error(#[trigger] items@[i]) == Some(e) && forall|k: int|
                0 <= k < i ==> item_error(#[trigger] items@[k]) is None,
{
    if items.len() == 0 {
        return Err(DeployError::EmptyCache);
    }
    let mut i: usize = 0;
    while i < items.len()
        invariant
            i <= items@.len(),
            items@.len() > 0,
            forall|k: int| 0 <= k < i ==> item_error(#[trigger] items@[k]) is None,
        decreases items@.len() - i,
    {
        match check_cache_item(&items[i]) {
            Ok(()) => {},
            Err(e) => {
                assert(item_error(items@[i as int]) == Some(e));
                return Err(e);
            },
        }
        i = i + 1;
    }
    Ok(())
}

/// The error texts without repeats, each where it first occurs.
pub open spec fn distinct_texts(errors: Seq<Seq<char>>) -> Seq<Seq<char>>
    decreases errors.len(),
{
    if errors.len() == 0 {
        Seq::empty()
    } else {
        let before = distinct_texts(errors.drop_last());
        if before.contains(errors.last()) {
            before
        } else {
            before.push(errors.last())
        }
    }
}

/// The texts of a list of strings.
pub open spec fn texts(strings: Seq<String>) -> Seq<Seq<char>> {
    strings.map_values(|s: String| s@)
}

/// The distinct texts hold each error text once, and nothing else.
pub proof fn lemma_distinct_texts(errors: Seq<Seq<char>>)
    ensures
        distinct_texts(errors).no_duplicates(),
        forall|t: Seq<char>| #[trigger] distinct_texts(errors).contains(t) <==> errors.contains(t),
    decreases errors.len(),
{
    if errors.len() > 0 {
        let init = errors.drop_last();
        lemma_distinct_texts(init);
        let before = distinct_texts(init);
        assert forall|t: Seq<char>| errors.contains(t) <==> init.contains(t) || t == errors.last() by {
            if errors.contains(t) {
                let i = choose|i: int| 0 <= i < errors.len() && errors[i] == t;
                if i < errors.len() - 1 {
                    assert(init[i] == t);
                }
            }
            if init.contains(t) {
                let i = choose|i: int| 0 <= i < init.len() && init[i] == t;
                assert(errors[i] == t);
            }
        }
        if !before.contains(errors.last()) {
            let after = before.push(errors.last());
            assert forall|t: Seq<char>| after.contains(t) <==> before.contains(t) || t == errors.last() by {
                if after.contains(t) {
                    let i = choose|i: int| 0 <= i < after.len() && after[i] == t;
                    if i < before.len() {
                        assert(before[i] == t);
                    }
                }
                if before.contains(t) {
                    let i = choose|i: int| 0 <= i < before.len() && before[i] == t;
                    assert(after[i] == t);
                }
                if t == errors.last() {
                    assert(after[before.len() as int] == t);
                }
            }
        }
    }
}

/// Whether `t` is among `list`.
fn contains_text(list: &Vec<String>, t: &String) -> (r: bool)
    ensures
        r == texts(list@).contains(t@),
{
    let mut i: usize = 0;
    while i < list.len()
        invariant
            i <= list@.len(),
            forall|k: int| 0 <= k < i ==> list@[k]@ != t@,
        decreases list@.len() - i,
    {
        if list[i] == *t {
            assert(texts(list@)[i as int] == t@);
            return true;
        }
        i = i + 1;
    }
    proof {
        if texts(list@).contains(t@) {
            let k = choose|k: int| 0 <= k < texts(list@).len() && texts(list@)[k] == t@;
            assert(list@[k]@ == t@);
        }
    }
    false
}

/// The distinct error texts of a failed upload, in order of first
/// occurrence, for the report that counts all the errors and lists each
/// distinct one.
pub fn distinct_errors(errors: &Vec<String>) -> (r: Vec<String>)
    ensures
        texts(r@) == distinct_texts(texts(errors@)),
        texts(r@).no_duplicates(),
        forall|t: Seq<char>| #[trigger] texts(r@).contains(t) <==> texts(errors@).contains(t),
{
    let mut r: Vec<String> = Vec::new();
    let mut i: usize = 0;
    while i < errors.len()
        invariant
            i <= errors@.len(),
            texts(r@) == distinct_texts(texts(errors@).subrange(0, i as int)),
        decreases errors@.len() - i,
    {
        let ghost prefix = texts(errors@).subrange(0, i as int + 1);
        assert(prefix.drop_last() =~= texts(errors@).subrange(0, i as int));
        assert(prefix.last() == errors@[i as int]@);
        if !contains_text(&r, &errors[i]) {
            r.push(errors[i].clone());
            assert(texts(r@) =~= distinct_texts(prefix));
        }
        i = i + 1;
    }
    assert(texts(errors@).subrange(0, errors@.len() as int) =~= texts(errors@));
    proof {
        lemma_distinct_texts(texts(errors@));
    }
    r
}

/// How many cached items are assets: all of them but the collection item.
pub open spec fn asset_count(cache_len: nat, collection_in_cache: bool) -> int {
    if collection_in_cache && cache_len > 0 {
        cache_len - 1
    } else {
        cache_len as int
    }
}

/// Checks that the configured number of items matches the cached assets.
pub fn check_item_count(num_items: u64, cache_len: usize, collection_in_cache: bool) -> (r: Result<
    (),
    DeployError,
>)
    ensures
        r is Ok <==> num_items == asset_count(cache_len as nat, collection_in_cache),
        r is Err ==> r == Err::<(), DeployError>(
            DeployError::ItemCountMismatch(
                num_items,
                asset_count(cache_len as nat, collection_in_cache) as u64,
            ),
        ),
{
    let assets: u64 = if collection_in_cache && cache_len > 0 {
        (cache_len - 1) as u64
    } else {
        cache_len as u64
    };
    if num_items != assets {
        Err(DeployError::ItemCountMismatch(num_items, assets))
    } else {
        Ok(())
    }
}

/// The steps a deployment runs.
#[derive(Debug, Clone, Copy, PartialEq, Eq, Structural)]
pub struct DeployPlan {
    pub create_candy_machine: bool,
    pub set_collection: bool,
    pub write_config_lines: bool,
    pub update_hidden_hash: bool,
    pub total_steps: u8,
}

/// Decides the steps: create the pool unless one is cached, set the
/// collection where one is cached, not yet on chain, and no item was claimed,
/// and either write the records or, with hidden content, update its hash.
pub fn plan_deploy(
    has_candy_machine: bool,
    collection_in_cache: bool,
    collection_on_chain: bool,
    item_redeemed: bool,
    hidden: bool,
) -> (r: DeployPlan)
    ensures
        r.create_candy_machine == !has_candy_machine,
        r.set_collection == (collection_in_cache && !collection_on_chain && !item_redeemed),
        r.write_config_lines == !hidden,
        r.update_hidden_hash == hidden,
        r.total_steps == 2 + (if collection_in_cache {
            1int
        } else {
            0
        }) - (if hidden {
            1int
        } else {
            0
        }),
{
    let total_steps: u8 = 2 + (if collection_in_cache {
        1u8
    } else {
        0
    }) - (if hidden {
        1u8
    } else {
        0
    });
    DeployPlan {
        create_candy_machine: !has_candy_machine,
        set_collection: collection_in_cache && !collection_on_chain && !item_redeemed,
        write_config_lines: !hidden,
        update_hidden_hash: hidden,
        total_steps,
    }
}

/// Where proceeds are paid: with a payment token, its token account (the
/// configured one, else the payer's derived one), which excludes a native
/// treasury; without one, the native treasury, else the signer.
pub fn select_treasury(
    spl_token: Option<[u8; 32]>,
    spl_token_account: Option<[u8; 32]>,
    derived_token_account: [u8; 32],
    sol_treasury_account: Option<[u8; 32]>,
    signer: [u8; 32],
) -> (r: Result<[u8; 32], DeployError>)
    ensures
        spl_token is Some && sol_treasury_account is Some ==> r == Err::<[u8; 32], DeployError>(
            DeployError::TreasuryConflict,
        ),
        spl_token is Some && sol_treasury_account is None ==> r == Ok::<[u8; 32], DeployError>(
            match spl_token_account {
                Some(a) => a,
                None => derived_token_account,
            },
        ),
        spl_token is None ==> r == Ok::<[u8; 32], DeployError>(
            match sol_treasury_account {
                Some(a) => a,
                None => signer,
            },
        ),
{
    match spl_token {
        Some(_) => {
            if sol_treasury_account.is_some() {
                return Err(DeployError::TreasuryConflict);
            }
            match spl_token_account {
                Some(a) => Ok(a),
                None => Ok(derived_token_account),
            }
        },
        None => match sol_treasury_account {
            Some(a) => Ok(a),
            None => Ok(signer),
        },
    }
}

} // verus!
