//! Keys from mnemonics, and what a payment is checked for before it is made.
use crate::network::Network;
use crate::text::{dec, push_dec, push_signed, same_text, signed_dec};
use vstd::prelude::*;
use zcash_protocol::consensus;

verus! {

/// The seed of a mnemonic with a passphrase, or the words of the error.
pub uninterp spec fn mnemonic_seed(phrase: Seq<char>, passphrase: Seq<char>) -> Result<
    Seq<u8>,
    Seq<char>,
>;

/// `Mnemonic::parse` of bip39, and `Mnemonic::to_seed` with the passphrase. Which phrases
/// are mnemonics, and what their seeds are, is left to [`mnemonic_seed`].
#[verifier::external_body]
fn seed_of(phrase: &str, passphrase: &str) -> (r: Result<[u8; 64], String>)
    ensures
        match r {
            Ok(seed) => mnemonic_seed(phrase@, passphrase@) == Ok::<Seq<u8>, Seq<char>>(seed@),
            Err(e) => mnemonic_seed(phrase@, passphrase@) == Err::<Seq<u8>, Seq<char>>(e@),
        },
{
    match bip39::Mnemonic::parse(phrase) {
        Ok(m) => Ok(m.to_seed(passphrase)),
        Err(e) => Err(e.to_string()),
    }
}

/// The encoded unified full viewing key of an account of a seed, or the error as Rust
/// shows it to developers.
pub uninterp spec fn derived_ufvk(network: Network, seed: Seq<u8>, account: u32) -> Result<
    Seq<char>,
    Seq<char>,
>;

/// `UnifiedSpendingKey::from_seed` of zcash_keys, and the encoding of the key's unified
/// full viewing key. An account index is below two to the power of 31. What key comes of
/// which seed is left to [`derived_ufvk`].
#[verifier::external_body]
fn ufvk_of(network: Network, seed: &[u8; 64], account: u32) -> (r: Result<String, String>)
    requires
        account < 0x8000_0000,
    ensures
        match r {
            Ok(key) => derived_ufvk(network, seed@, account) == Ok::<Seq<char>, Seq<char>>(key@),
            Err(e) => derived_ufvk(network, seed@, account) == Err::<Seq<char>, Seq<char>>(e@),
        },
{
    let params = match network { Network::MainNetwork => consensus::Network::MainNetwork, Network::TestNetwork => consensus::Network::TestNetwork };
    let id = zip32::AccountId::const_from_u32(account);
    match zcash_keys::keys::UnifiedSpendingKey::from_seed(&params, &seed[..], id) {
        Ok(usk) => Ok(usk.to_unified_full_viewing_key().encode(&params)),
        Err(e) => Err(format!("{e:?}")),
    }
}

/// The viewing key of an account of a mnemonic without a passphrase, or the words of the
/// error.
pub open spec fn key_of_mnemonic(network: Network, phrase: Seq<char>, account: u32) -> Result<
    Seq<char>,
    Seq<char>,
> {
    match mnemonic_seed(phrase, ""@) {
        Err(e) => Err("invalid mnemonic: "@ + e),
        Ok(seed) => if account >= 0x8000_0000 {
            Err("invalid account index "@ + dec(account as nat))
        } else {
            match derived_ufvk(network, seed, account) {
                Ok(key) => Ok(key),
                Err(e) => Err("derivation failed: "@ + e),
            }
        },
    }
}

/// Derives the viewing key of an account of a mnemonic.
pub fn derive_ufvk(network: Network, phrase: &str, account: u32) -> (r: Result<String, String>)
    ensures
        match r {
            Ok(key) => key_of_mnemonic(network, phrase@, account) == Ok::<Seq<char>, Seq<char>>(
                key@,
            ),
            Err(m) => key_of_mnemonic(network, phrase@, account) == Err::<Seq<char>, Seq<char>>(
                m@,
            ),
        },
{
    match checked_seed(seed_of(phrase, ""), account) {
        Ok(seed) => derived_key(ufvk_of(network, &seed, account)),
        Err(m) => Err(m),
    }
}

/// The seed to derive an account from, from what reading the mnemonic gave.
pub fn checked_seed(reading: Result<[u8; 64], String>, account: u32) -> (r: Result<
    [u8; 64],
    String,
>)
    ensures
        match reading {
            Err(e) => r matches Err(m) && m@ == "invalid mnemonic: "@ + e@,
            Ok(seed) => if account >= 0x8000_0000 {
                r matches Err(m) && m@ == "invalid account index "@ + dec(account as nat)
            } else {
                r == Ok::<[u8; 64], String>(seed)
            },
        },
{
    match reading {
        Err(e) => {
            let mut m: String = "invalid mnemonic: ".to_owned();
            m.push_str(e.as_str());
            Err(m)
        },
        Ok(seed) => {
            if account >= 0x8000_0000 {
                let mut m: String = "invalid account index ".to_owned();
                push_dec(&mut m, account as u64);
                return Err(m);
            }
            Ok(seed)
        },
    }
}

/// The derived key, from what the derivation gave.
pub fn derived_key(derivation: Result<String, String>) -> (r: Result<String, String>)
    ensures
        match derivation {
            Ok(key) => r == Ok::<String, String>(key),
            Err(e) => r matches Err(m) && m@ == "derivation failed: "@ + e@,
        },
{
    match derivation {
        Ok(key) => Ok(key),
        Err(e) => {
            let mut m: String = "derivation failed: ".to_owned();
            m.push_str(e.as_str());
            Err(m)
        },
    }
}

/// The hint that follows a derived key.
pub open spec fn derive_hint_text(network: Network) -> Seq<char> {
    "hint: slipstream sync --network "@ + (match network {
        Network::MainNetwork => "main"@,
        Network::TestNetwork => "test"@,
    }) + " --server <lwd-url> --wallet-dir <dir> --ufvk '<above>' --birthday <height>"@
}

/// The hint that follows a derived key.
pub fn derive_hint(network: Network) -> (r: String)
    ensures
        r@ == derive_hint_text(network),
{
    let mut s: String = "hint: slipstream sync --network ".to_owned();
    match network {
        Network::MainNetwork => {
            s.push_str("main");
        },
        Network::TestNetwork => {
            s.push_str("test");
        },
    }
    s.push_str(" --server <lwd-url> --wallet-dir <dir> --ufvk '<above>' --birthday <height>");
    s
}

/// The default unified address of an encoded viewing key; none where the key does not
/// decode or has no address.
pub uninterp spec fn default_address(network: Network, ufvk: Seq<char>) -> Option<Seq<char>>;

/// `UnifiedFullViewingKey::default_address` of zcash_keys for all keys that are available, on a
/// decoded key, with the address encoded. What address a key has is left to
/// [`default_address`].
#[verifier::external_body]
fn address_of(network: Network, ufvk: &str) -> (r: Option<String>)
    ensures
        match r {
            Some(a) => default_address(network, ufvk@) == Some(a@),
            None => default_address(network, ufvk@) is None,
        },
{
    let params = match network { Network::MainNetwork => consensus::Network::MainNetwork, Network::TestNetwork => consensus::Network::TestNetwork };
    let request = zcash_keys::keys::UnifiedAddressRequest::AllAvailableKeys;
    let key = zcash_keys::keys::UnifiedFullViewingKey::decode(&params, ufvk).ok()?;
    let (address, _) = key.default_address(request).ok()?;
    Some(address.encode(&params))
}

/// Whether a text is the encoding of an address of any kind.
pub uninterp spec fn is_address(text: Seq<char>) -> bool;

/// `ZcashAddress::try_from_encoded` of zcash_address. Which texts are addresses is left to
/// [`is_address`].
#[verifier::external_body]
fn check_address(text: &str) -> (r: bool)
    ensures
        r == is_address(text@),
{
    zcash_address::ZcashAddress::try_from_encoded(text).is_ok()
}

/// All money there will be, in zatoshis.
pub const MAX_ZATOSHIS: u64 = 2_100_000_000_000_000;

/// A payment that was checked.
#[derive(Debug)]
pub struct Payment {
    pub to: String,
    pub zats: u64,
}

/// Where the payment of an amount goes: to the address that is given, or else to the
/// wallet's own; or the words of the error.
pub open spec fn payment_spec(to: Option<Seq<char>>, own: Option<Seq<char>>, zats: u64) -> Result<
    Seq<char>,
    Seq<char>,
> {
    let target = match to {
        Some(t) => Some(t),
        None => own,
    };
    match target {
        None => Err("default address"@),
        Some(t) => if !is_address(t) {
            Err("recipient address parses"@)
        } else if zats > MAX_ZATOSHIS {
            Err("amount out of range"@)
        } else {
            Ok(t)
        },
    }
}

/// Checks a payment: it goes to the address that is given, or else to the wallet's own, which
/// must be an address, and the amount must be one.
pub fn check_payment(network: Network, ufvk: &str, to: Option<String>, zats: u64) -> (r: Result<
    Payment,
    String,
>)
    ensures
        ({
            let target = match to {
                Some(t) => Some(t@),
                None => None,
            };
            match payment_spec(target, default_address(network, ufvk@), zats) {
                Ok(t) => r matches Ok(p) && p.to@ == t && p.zats == zats,
                Err(e) => r matches Err(m) && m@ == e,
            }
        }),
{
    let target: String = match to {
        Some(t) => t,
        None => match address_of(network, ufvk) {
            Some(own) => own,
            None => {
                return Err("default address".to_owned());
            },
        },
    };
    let parses: bool = check_address(target.as_str());
    payment_of(target, parses, zats)
}

/// The payment to a target that is an address, or is none.
pub fn payment_of(target: String, parses: bool, zats: u64) -> (r: Result<Payment, String>)
    ensures
        !parses ==> (r matches Err(m) && m@ == "recipient address parses"@),
        parses && zats > MAX_ZATOSHIS ==> (r matches Err(m) && m@ == "amount out of range"@),
        parses && zats <= MAX_ZATOSHIS ==> (r matches Ok(p) && p.to == target && p.zats == zats),
{
    if !parses {
        return Err("recipient address parses".to_owned());
    }
    if zats > MAX_ZATOSHIS {
        return Err("amount out of range".to_owned());
    }
    Ok(Payment { to: target, zats })
}

/// Checks that the wallet has one account, whose key is the derived one.
pub fn check_wallet(accounts: usize, wallet_ufvk: &str, derived: &str) -> (r: Result<(), String>)
    ensures
        accounts != 1 ==> (r matches Err(m) && m@
            == "send tooling expects a single-account wallet"@),
        accounts == 1 && wallet_ufvk@ != derived@ ==> (r matches Err(m) && m@
            == "mnemonic/account does not match the wallet's UFVK"@),
        accounts == 1 && wallet_ufvk@ == derived@ ==> r is Ok,
{
    if accounts != 1 {
        return Err("send tooling expects a single-account wallet".to_owned());
    }
    if !same_text(wallet_ufvk, derived) {
        return Err("mnemonic/account does not match the wallet's UFVK".to_owned());
    }
    Ok(())
}

/// Checks that one transaction was created.
pub fn check_created(transactions: usize) -> (r: Result<(), String>)
    ensures
        transactions == 1 ==> r is Ok,
        transactions != 1 ==> (r matches Err(m) && m@ == "exactly one transaction expected"@),
{
    if transactions != 1 {
        return Err("exactly one transaction expected".to_owned());
    }
    Ok(())
}

/// What the server made of a transaction, in words: the code zero accepts it.
pub fn broadcast_verdict(code: i32, message: &str, txid: &str) -> (r: Result<String, String>)
    ensures
        code == 0 ==> (r matches Ok(s) && s@ == "BROADCAST ACCEPTED: txid "@ + txid@),
        code != 0 ==> (r matches Err(s) && s@ == "BROADCAST REJECTED ("@ + signed_dec(code as int)
            + "): "@ + message@),
{
    if code == 0 {
        let mut s: String = "BROADCAST ACCEPTED: txid ".to_owned();
        s.push_str(txid);
        Ok(s)
    } else {
        let mut s: String = "BROADCAST REJECTED (".to_owned();
        push_signed(&mut s, code as i64);
        s.push_str("): ");
        s.push_str(message);
        Err(s)
    }
}

/// The key of a mnemonic is derived from its seed without a passphrase, for the network and
/// the account that are asked for; each step that fails says so.
pub proof fn law_keys_come_of_the_seed(network: Network, phrase: Seq<char>, account: u32)
    ensures
        mnemonic_seed(phrase, ""@) matches Err(e) ==> key_of_mnemonic(network, phrase, account)
            == Err::<Seq<char>, Seq<char>>("invalid mnemonic: "@ + e),
        mnemonic_seed(phrase, ""@) is Ok && account >= 0x8000_0000 ==> key_of_mnemonic(
            network,
            phrase,
            account,
        ) == Err::<Seq<char>, Seq<char>>("invalid account index "@ + dec(account as nat)),
        mnemonic_seed(phrase, ""@) matches Ok(seed) ==> account < 0x8000_0000 ==> {
            &&& key_of_mnemonic(network, phrase, account) is Ok <==> derived_ufvk(
                network,
                seed,
                account,
            ) is Ok
            &&& derived_ufvk(network, seed, account) is Ok ==> key_of_mnemonic(
                network,
                phrase,
                account,
            ) == derived_ufvk(network, seed, account)
            &&& derived_ufvk(network, seed, account) matches Err(e) ==> key_of_mnemonic(
                network,
                phrase,
                account,
            ) == Err::<Seq<char>, Seq<char>>("derivation failed: "@ + e)
        },
{
}

/// The hint is for the network that the key is of.
pub proof fn law_hint_names_the_network(network: Network)
    ensures
        derive_hint_text(Network::MainNetwork) == "hint: slipstream sync --network "@ + "main"@
            + " --server <lwd-url> --wallet-dir <dir> --ufvk '<above>' --birthday <height>"@,
        derive_hint_text(Network::TestNetwork) == "hint: slipstream sync --network "@ + "test"@
            + " --server <lwd-url> --wallet-dir <dir> --ufvk '<above>' --birthday <height>"@,
{
}

/// A payment goes to the address that is given, to the wallet's own only where none is, and
/// nowhere else; it is refused where that is no address, or where the amount is more than all
/// the money there is.
pub proof fn law_payments_go_where_they_are_sent(
    to: Seq<char>,
    own: Option<Seq<char>>,
    zats: u64,
)
    ensures
        payment_spec(Some(to), own, zats) == payment_spec(Some(to), None, zats),
        payment_spec(None, Some(to), zats) == payment_spec(Some(to), own, zats),
        payment_spec(Some(to), own, zats) is Ok <==> is_address(to) && zats
            <= 21_000_000 * 100_000_000,
        payment_spec(Some(to), own, zats) is Ok ==> payment_spec(Some(to), own, zats) == Ok::<
            Seq<char>,
            Seq<char>,
        >(to),
        !is_address(to) ==> payment_spec(Some(to), own, zats) == Err::<Seq<char>, Seq<char>>(
            "recipient address parses"@,
        ),
        is_address(to) && zats > 21_000_000 * 100_000_000 ==> payment_spec(Some(to), own, zats)
            == Err::<Seq<char>, Seq<char>>("amount out of range"@),
        payment_spec(None, None, zats) == Err::<Seq<char>, Seq<char>>("default address"@),
{
}

} // verus!
