//! What the server decides as it starts.
use crate::models::{is_uuid_text, new_id, Account, BackendId, ModelInfo};
use crate::text::{is_blank, is_blank_text, join2, opt_str_view, remove_char, same, without};
use vstd::prelude::*;

verus! {

/// A key, and whether it has to be stored.
#[derive(Debug)]
pub struct KeyChoice {
    pub key: String,
    pub mint: bool,
}

/// A key that was configured counts before one that was stored; without either,
/// a new one is minted.
pub open spec fn known_key(configured: Option<Seq<char>>, stored: Option<Seq<char>>) -> Option<
    Seq<char>,
> {
    match configured {
        Some(k) if k.len() > 0 => Some(k),
        _ => stored,
    }
}

/// The key to use, where `fresh` is a newly minted one.
pub fn choose_key(configured: Option<&str>, stored: Option<&str>, fresh: String) -> (r: KeyChoice)
    ensures
        match known_key(opt_str_view(configured), opt_str_view(stored)) {
            Some(k) => r.key@ == k && !r.mint,
            None => r.key@ == fresh@ && r.mint,
        },
{
    if let Some(k) = configured {
        if !k.is_empty() {
            return KeyChoice { key: k.to_owned(), mint: false };
        }
    }
    match stored {
        Some(k) => KeyChoice { key: k.to_owned(), mint: false },
        None => KeyChoice { key: fresh, mint: true },
    }
}

/// A key that was minted and stored is used from then on, while none is
/// configured.
pub proof fn law_key_is_minted_once(configured: Option<Seq<char>>, minted: Seq<char>)
    requires
        known_key(configured, None) is None,
    ensures
        known_key(configured, Some(minted)) == Some(minted),
{
}

/// The text is the hexadecimal digits of an identifier.
pub open spec fn is_plain_id(s: Seq<char>) -> bool {
    exists|id: Seq<char>| #[trigger] is_uuid_text(id) && s == without(id, '-')
}

/// A new token of the admin interface: random digits.
pub fn mint_ui_token() -> (r: String)
    ensures
        is_plain_id(r@),
{
    let id = new_id();
    remove_char(id.as_str(), '-')
}

/// A new key of the proxy: a fixed prefix and random digits.
pub fn mint_proxy_key() -> (r: String)
    ensures
        exists|digits: Seq<char>| #[trigger] is_plain_id(digits) && r@ == "sk-underclass-"@ + digits,
{
    let digits = mint_ui_token();
    join2("sk-underclass-", digits.as_str())
}

/// The address to listen on: the one asked for, else the configured one.
pub fn bind_address(asked: Option<&str>, configured: &str) -> (r: String)
    ensures
        r@ == (match asked {
            Some(a) => a@,
            None => configured@,
        }),
{
    match asked {
        Some(a) => a.to_owned(),
        None => configured.to_owned(),
    }
}

/// Whether the catalog of a backend is filled with its defaults: where it is
/// empty.
pub fn seeds_catalog(stored: &Vec<ModelInfo>) -> (r: bool)
    ensures
        r == (stored@.len() == 0),
{
    stored.len() == 0
}

/// Whether a fetched catalog takes the place of the stored one: unless it is
/// empty.
pub fn adopts_catalog(fetched: &Vec<ModelInfo>) -> (r: bool)
    ensures
        r == (fetched@.len() > 0),
{
    fetched.len() > 0
}

/// The account can be asked for its catalog.
pub open spec fn is_source(a: Account) -> bool {
    a.backend == BackendId::Copilot && a.refresh_token is Some
}

/// The accounts that can be asked, in order.
pub open spec fn sources(s: Seq<Account>) -> Seq<Account>
    decreases s.len(),
{
    if s.len() == 0 {
        s
    } else if is_source(s.last()) {
        sources(s.drop_last()).push(s.last())
    } else {
        sources(s.drop_last())
    }
}

/// The accounts that can be asked for the Copilot catalog, in order.
pub fn catalog_sources(accounts: &Vec<Account>) -> (r: Vec<Account>)
    ensures
        r@ == sources(accounts@),
{
    let mut out: Vec<Account> = Vec::new();
    for i in 0..accounts.len()
        invariant
            out@ == sources(accounts@.take(i as int)),
    {
        assert(accounts@.take(i + 1).drop_last() =~= accounts@.take(i as int));
        if accounts[i].backend == BackendId::Copilot && accounts[i].refresh_token.is_some() {
            out.push(accounts[i].clone());
        }
    }
    assert(accounts@.take(accounts@.len() as int) =~= accounts@);
    out
}

/// The label says nothing of the owner.
pub open spec fn is_generic(label: Seq<char>) -> bool {
    label == "chatgpt"@ || label == "github"@ || is_blank_text(label)
}

/// Whether the label says nothing of the owner.
pub fn is_generic_label(label: &str) -> (r: bool)
    ensures
        r == is_generic(label@),
{
    same(label, "chatgpt") || same(label, "github") || is_blank(label)
}

/// The accounts with a label that says nothing, in order.
pub open spec fn unnamed(s: Seq<Account>) -> Seq<Account>
    decreases s.len(),
{
    if s.len() == 0 {
        s
    } else if is_generic(s.last().label@) {
        unnamed(s.drop_last()).push(s.last())
    } else {
        unnamed(s.drop_last())
    }
}

/// The accounts whose owner is looked up, in order.
pub fn unnamed_accounts(accounts: &Vec<Account>) -> (r: Vec<Account>)
    ensures
        r@ == unnamed(accounts@),
{
    let mut out: Vec<Account> = Vec::new();
    for i in 0..accounts.len()
        invariant
            out@ == unnamed(accounts@.take(i as int)),
    {
        assert(accounts@.take(i + 1).drop_last() =~= accounts@.take(i as int));
        if is_generic_label(accounts[i].label.as_str()) {
            out.push(accounts[i].clone());
        }
    }
    assert(accounts@.take(accounts@.len() as int) =~= accounts@);
    out
}

/// The account with its owner as label.
pub fn relabelled(account: &Account, identity: String, ts: i64) -> (r: Account)
    ensures
        r == (Account { label: identity, updated_at: ts, ..*account }),
{
    let mut r = account.clone();
    r.label = identity;
    r.updated_at = ts;
    r
}

/// Whether a path that is taken may be replaced by the monitor socket: only a
/// socket that no server accepts on.
pub fn may_replace_socket(is_socket: bool, refused: bool) -> (r: bool)
    ensures
        r == (is_socket && refused),
{
    is_socket && refused
}

} // verus!
