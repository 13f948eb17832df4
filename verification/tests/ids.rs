use iroha_ledger::id::{AccountId, AssetDefinitionId, AssetId, DomainId, NftId};
use iroha_ledger::name::{Name, ParseError};
use iroha_ledger::registry::Key;
use iroha_ledger::text::Order;

#[test]
fn nft_id_is_name_and_domain() {
    let nft_id = NftId::from_str("nft_name$soramitsu").expect("Valid");
    assert_eq!(nft_id.name().as_str(), "nft_name");
    assert_eq!(nft_id.domain().name.as_str(), "soramitsu");
    assert_eq!(nft_id.to_string(), "nft_name$soramitsu");
}

#[test]
fn nft_id_faults() {
    assert_eq!(NftId::from_str("nft_name"), Err(ParseError::NftFormat));
    assert_eq!(NftId::from_str(""), Err(ParseError::NftFormat));
    assert_eq!(NftId::from_str("$soramitsu"), Err(ParseError::NftEmptyName));
    assert_eq!(NftId::from_str("nft_name$"), Err(ParseError::NftEmptyDomain));
    assert_eq!(NftId::from_str("$"), Err(ParseError::NftEmptyName));
    assert_eq!(NftId::from_str("a$b$c"), Err(ParseError::NftName));
    assert_eq!(NftId::from_str("nft name$soramitsu"), Err(ParseError::NftName));
    assert_eq!(NftId::from_str("nft_name$sora mitsu"), Err(ParseError::NftDomain));
    assert_eq!(NftId::from_str("nft_name$sora#mitsu"), Err(ParseError::NftDomain));
    assert_eq!(ParseError::NftFormat.reason(), "Non Fungible Asset ID should have format `name$domain`");
    assert_eq!(ParseError::NftEmptyName.reason(), "Empty `name` part in `name$domain`");
    assert_eq!(ParseError::NftEmptyDomain.reason(), "Empty `domain` part in `name$domain`");
    assert_eq!(ParseError::NftName.reason(), "Failed to parse `name` part in `name$domain`");
    assert_eq!(ParseError::NftDomain.reason(), "Failed to parse `domain` part in `name$domain`");
}

#[test]
fn names_hold_no_space_and_no_separator() {
    assert_eq!(Name::from_str("").unwrap_err(), ParseError::NameEmpty);
    assert_eq!(Name::from_str("a b").unwrap_err(), ParseError::NameWhitespace);
    assert_eq!(Name::from_str("a\tb").unwrap_err(), ParseError::NameWhitespace);
    assert_eq!(Name::from_str("a\u{3000}b").unwrap_err(), ParseError::NameWhitespace);
    assert_eq!(Name::from_str("a\u{a0}@").unwrap_err(), ParseError::NameWhitespace);
    assert_eq!(Name::from_str("a@b").unwrap_err(), ParseError::NameReserved);
    assert_eq!(Name::from_str("a#b").unwrap_err(), ParseError::NameReserved);
    assert_eq!(Name::from_str("a$b").unwrap_err(), ParseError::NameReserved);
    assert_eq!(Name::from_str("wonder_land-1.é").unwrap().as_str(), "wonder_land-1.é");
    assert_eq!(DomainId::from_str("wonder land").unwrap_err(), ParseError::NameWhitespace);
}

#[test]
fn account_id_is_signatory_and_domain() {
    let id = AccountId::from_str("ed0120CE7F@wonderland").unwrap();
    assert_eq!(id.signatory.as_str(), "ed0120CE7F");
    assert_eq!(id.domain.to_string(), "wonderland");
    assert_eq!(id.to_string(), "ed0120CE7F@wonderland");
    assert_eq!(AccountId::from_str("ed0120CE7F"), Err(ParseError::AccountFormat));
    assert_eq!(AccountId::from_str("@wonderland"), Err(ParseError::AccountEmptySignatory));
    assert_eq!(AccountId::from_str("ed0120CE7F@"), Err(ParseError::AccountEmptyDomain));
    assert_eq!(AccountId::from_str("ed01@20@wonderland"), Err(ParseError::AccountSignatory));
    assert_eq!(AccountId::from_str("ed0120@wonder$land"), Err(ParseError::AccountDomain));
}

#[test]
fn asset_definition_id_is_name_and_domain() {
    let id = AssetDefinitionId::from_str("rose#wonderland").unwrap();
    assert_eq!(id.name.as_str(), "rose");
    assert_eq!(id.domain.to_string(), "wonderland");
    assert_eq!(id.to_string(), "rose#wonderland");
    assert_eq!(AssetDefinitionId::from_str("rose"), Err(ParseError::AssetDefinitionFormat));
    assert_eq!(AssetDefinitionId::from_str("#wonderland"), Err(ParseError::AssetDefinitionEmptyName));
    assert_eq!(AssetDefinitionId::from_str("rose#"), Err(ParseError::AssetDefinitionEmptyDomain));
    assert_eq!(AssetDefinitionId::from_str("ro#se#wonderland"), Err(ParseError::AssetDefinitionName));
    assert_eq!(AssetDefinitionId::from_str("rose#wonder land"), Err(ParseError::AssetDefinitionDomain));
}

#[test]
fn asset_id_has_a_short_form_for_equal_domains() {
    let short = AssetId::from_str("rose##ed0120CE7F@wonderland").unwrap();
    assert_eq!(short.definition.to_string(), "rose#wonderland");
    assert_eq!(short.account.to_string(), "ed0120CE7F@wonderland");
    assert_eq!(short.to_string(), "rose##ed0120CE7F@wonderland");

    let long = AssetId::from_str("rose#wonderland#ed0120CE7F@wonderland").unwrap();
    assert_eq!(long, short);
    assert_eq!(long.to_string(), "rose##ed0120CE7F@wonderland");

    let other = AssetId::from_str("rose#garden#ed0120CE7F@wonderland").unwrap();
    assert_eq!(other.definition.to_string(), "rose#garden");
    assert_eq!(other.to_string(), "rose#garden#ed0120CE7F@wonderland");
    assert_eq!(
        other,
        AssetId::new(
            AssetDefinitionId::from_str("rose#garden").unwrap(),
            AccountId::from_str("ed0120CE7F@wonderland").unwrap()
        )
    );
}

#[test]
fn asset_id_faults() {
    assert_eq!(AssetId::from_str("rose"), Err(ParseError::AssetFormat));
    assert_eq!(AssetId::from_str("rose#wonderland"), Err(ParseError::AssetAccount));
    assert_eq!(AssetId::from_str("rose##@wonderland"), Err(ParseError::AssetAccount));
    assert_eq!(AssetId::from_str("rose#wonderland#ed0120CE7F"), Err(ParseError::AssetAccount));
    assert_eq!(AssetId::from_str("#ed0120CE7F@wonderland"), Err(ParseError::AssetDefinition));
    assert_eq!(AssetId::from_str("##ed0120CE7F@wonderland"), Err(ParseError::AssetDefinition));
    assert_eq!(AssetId::from_str("rose#ed0120CE7F@wonderland"), Err(ParseError::AssetDefinition));
    assert_eq!(AssetId::from_str("ro se##ed0120CE7F@wonderland"), Err(ParseError::AssetDefinition));
    assert_eq!(AssetId::from_str("a#b##ed0120CE7F@wonderland"), Err(ParseError::AssetDefinition));
}

#[test]
fn ids_are_ordered_by_domain_first() {
    let a = NftId::from_str("zebra$alpha").unwrap();
    let b = NftId::from_str("apple$beta").unwrap();
    let c = NftId::from_str("apples$beta").unwrap();
    assert_eq!(a.compare(&b), Order::Less);
    assert_eq!(b.compare(&a), Order::Greater);
    assert_eq!(b.compare(&c), Order::Less);
    assert_eq!(c.compare(&c.clone()), Order::Equal);
    let x = AssetId::from_str("rose#garden#aaa@wonderland").unwrap();
    let y = AssetId::from_str("ash#garden#bbb@wonderland").unwrap();
    let z = AssetId::from_str("rose#field#aaa@wonderland").unwrap();
    assert_eq!(x.compare(&y), Order::Less);
    assert_eq!(z.compare(&x), Order::Less);
    assert_eq!(Name::from_str("B").unwrap().compare(&Name::from_str("a").unwrap()), Order::Less);
    assert_eq!(Name::from_str("é").unwrap().compare(&Name::from_str("z").unwrap()), Order::Greater);
}
