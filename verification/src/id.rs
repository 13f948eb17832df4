//! Identifiers of domains, accounts, asset definitions, assets and NFTs:
//! their order, their textual form and its grammar.
//!
//! ```text
//! DomainId          := name
//! AccountId         := signatory "@" domain
//! AssetDefinitionId := name "#" domain
//! NftId             := name "$" domain
//! AssetId           := name "#" domain "#" signatory "@" domain
//!                    | name "##" signatory "@" domain      (both domains equal)
//! ```

use vstd::prelude::*;
use vstd::string::*;
use crate::name::{find_last, split_last, last_at, lemma_last_at_unique, valid_name, Name, ParseError};
use crate::registry::Key;
use crate::text::{chars_of, lemma_seq_lt_irreflexive, lemma_seq_lt_transitive, seq_lt, Order};

verus! {

/// Why a text is not two names around a separator.
#[derive(Clone, Copy, Debug, PartialEq, Eq, Structural)]
pub enum PairFault {
    /// The separator does not occur.
    Format,
    /// Nothing stands before the last separator.
    EmptyLeft,
    /// Nothing stands after the last separator.
    EmptyRight,
    /// What stands before the last separator is not a name.
    BadLeft,
    /// What stands after the last separator is not a name.
    BadRight,
}

/// `s` read as `left sep right`, split at the last `sep`, both sides names.
pub open spec fn parse_pair(s: Seq<char>, sep: char) -> Result<(Seq<char>, Seq<char>), PairFault> {
    match split_last(s, sep) {
        None => Err(PairFault::Format),
        Some((left, right)) => if left.len() == 0 {
            Err(PairFault::EmptyLeft)
        } else if right.len() == 0 {
            Err(PairFault::EmptyRight)
        } else if !valid_name(left) {
            Err(PairFault::BadLeft)
        } else if !valid_name(right) {
            Err(PairFault::BadRight)
        } else {
            Ok((left, right))
        },
    }
}

/// `left sep right`.
pub open spec fn pair_text(left: Seq<char>, sep: char, right: Seq<char>) -> Seq<char> {
    left + seq![sep] + right
}

/// Two names around a separator read back as themselves.
pub proof fn lemma_pair_round_trip(left: Seq<char>, sep: char, right: Seq<char>)
    requires
        valid_name(left),
        valid_name(right),
        sep == '@' || sep == '#' || sep == '$',
    ensures
        parse_pair(pair_text(left, sep, right), sep) == Ok::<(Seq<char>, Seq<char>), PairFault>(
            (left, right),
        ),
{
    let s = pair_text(left, sep, right);
    let i = left.len() as int;
    assert(s[i] == sep);
    assert forall|j: int| i < j < s.len() implies #[trigger] s[j] != sep by {
        assert(s[j] == right[j - i - 1]);
    }
    assert(last_at(s, sep, i));
    let w = choose|w: int| last_at(s, sep, w);
    lemma_last_at_unique(s, sep, i, w);
    assert(s.subrange(0, i) =~= left);
    assert(s.subrange(i + 1, s.len() as int) =~= right);
}

/// Reads `left sep right` from `s`.
fn read_pair(s: &str, sep: char) -> (r: Result<(Name, Name), PairFault>)
    ensures
        match r {
            Ok((left, right)) => parse_pair(s@, sep) == Ok::<(Seq<char>, Seq<char>), PairFault>(
                (left@, right@),
            ) && left.wf() && right.wf(),
            Err(f) => parse_pair(s@, sep) == Err::<(Seq<char>, Seq<char>), PairFault>(f),
        },
{
    let chars = chars_of(s);
    let i = match find_last(&chars, sep) {
        Some(i) => i,
        None => { return Err(PairFault::Format); },
    };
    assert(i < chars.len());
    if i == 0 {
        return Err(PairFault::EmptyLeft);
    }
    if i + 1 == chars.len() {
        return Err(PairFault::EmptyRight);
    }
    let left = match Name::from_str(s.substring_char(0, i)) {
        Ok(name) => name,
        Err(_) => { return Err(PairFault::BadLeft); },
    };
    let right = match Name::from_str(s.substring_char(i + 1, chars.len())) {
        Ok(name) => name,
        Err(_) => { return Err(PairFault::BadRight); },
    };
    Ok((left, right))
}

/// `left sep right` as a string.
fn write_pair(left: &Name, sep: &str, right: &Name) -> (r: String)
    requires
        sep@.len() == 1,
    ensures
        r@ == pair_text(left@, sep@[0], right@),
{
    let mut text = left.as_str().to_owned();
    text.append(sep);
    text.append(right.as_str());
    proof {
        assert(sep@ =~= seq![sep@[0]]);
    }
    text
}

/// Order on pairs: by the first component, then by the second.
pub open spec fn pair_lt(a1: Seq<char>, a2: Seq<char>, b1: Seq<char>, b2: Seq<char>) -> bool {
    seq_lt(a1, b1) || (a1 == b1 && seq_lt(a2, b2))
}

proof fn lemma_pair_lt_irreflexive(a1: Seq<char>, a2: Seq<char>)
    ensures
        !pair_lt(a1, a2, a1, a2),
{
    lemma_seq_lt_irreflexive(a1);
    lemma_seq_lt_irreflexive(a2);
}

proof fn lemma_pair_lt_transitive(
    a1: Seq<char>,
    a2: Seq<char>,
    b1: Seq<char>,
    b2: Seq<char>,
    c1: Seq<char>,
    c2: Seq<char>,
)
    requires
        pair_lt(a1, a2, b1, b2),
        pair_lt(b1, b2, c1, c2),
    ensures
        pair_lt(a1, a2, c1, c2),
{
    if seq_lt(a1, b1) && seq_lt(b1, c1) {
        lemma_seq_lt_transitive(a1, b1, c1);
    }
    if seq_lt(a2, b2) && seq_lt(b2, c2) {
        lemma_seq_lt_transitive(a2, b2, c2);
    }
}

fn compare_pair(a1: &Name, a2: &Name, b1: &Name, b2: &Name) -> (o: Order)
    ensures
        o == Order::Less <==> pair_lt(a1@, a2@, b1@, b2@),
        o == Order::Equal <==> (a1@ == b1@ && a2@ == b2@),
        o == Order::Greater <==> pair_lt(b1@, b2@, a1@, a2@),
{
    proof {
        crate::text::lemma_order_exclusive(a1@, b1@);
        crate::text::lemma_order_exclusive(a2@, b2@);
    }
    match a1.compare(b1) {
        Order::Less => Order::Less,
        Order::Greater => Order::Greater,
        Order::Equal => a2.compare(b2),
    }
}

/// Identifier of a domain: its name.
#[derive(Debug, PartialEq, Eq)]
pub struct DomainId {
    pub name: Name,
}

impl View for DomainId {
    type V = Seq<char>;

    open spec fn view(&self) -> Seq<char> {
        self.name@
    }
}

impl DomainId {
    pub open spec fn wf(&self) -> bool {
        valid_name(self@)
    }

    pub fn new(name: Name) -> (r: DomainId)
        ensures
            r@ == name@,
    {
        DomainId { name }
    }

    /// Reads a domain id: a name.
    pub fn from_str(s: &str) -> (r: Result<DomainId, ParseError>)
        ensures
            match r {
                Ok(id) => valid_name(s@) && id@ == s@ && id.wf(),
                Err(e) => !valid_name(s@) && e == crate::name::name_fault(s@),
            },
    {
        match Name::from_str(s) {
            Ok(name) => Ok(DomainId { name }),
            Err(e) => Err(e),
        }
    }

    /// The textual form: the name.
    pub fn to_string(&self) -> (r: String)
        ensures
            r@ == self@,
    {
        self.name.as_str().to_owned()
    }

    pub fn same(&self, other: &DomainId) -> (r: bool)
        ensures
            r == (self@ == other@),
    {
        self.name.same(&other.name)
    }
}

impl Clone for DomainId {
    fn clone(&self) -> (r: DomainId)
        ensures
            r@ == self@,
    {
        DomainId { name: self.name.clone() }
    }
}

impl Key for DomainId {
    open spec fn key_lt(a: Seq<char>, b: Seq<char>) -> bool {
        seq_lt(a, b)
    }

    proof fn lemma_key_lt_irreflexive(a: Seq<char>) {
        lemma_seq_lt_irreflexive(a);
    }

    proof fn lemma_key_lt_transitive(a: Seq<char>, b: Seq<char>, c: Seq<char>) {
        lemma_seq_lt_transitive(a, b, c);
    }

    proof fn lemma_key_lt_total(a: Seq<char>, b: Seq<char>) {
        crate::text::lemma_seq_lt_total(a, b);
    }

    fn compare(&self, other: &DomainId) -> (o: Order) {
        self.name.compare(&other.name)
    }

    fn duplicate(&self) -> (r: DomainId) {
        self.clone()
    }
}

/// An account id as plain values.
pub struct AccountIdView {
    pub domain: Seq<char>,
    pub signatory: Seq<char>,
}

/// Identifier of an account: the signatory's public key and the domain the
/// account lives in. The key is held in its textual (multihash) form and is
/// never decoded here.
#[derive(Debug, PartialEq, Eq)]
pub struct AccountId {
    pub domain: DomainId,
    pub signatory: Name,
}

impl View for AccountId {
    type V = AccountIdView;

    open spec fn view(&self) -> AccountIdView {
        AccountIdView { domain: self.domain@, signatory: self.signatory@ }
    }
}

impl AccountIdView {
    pub open spec fn wf(self) -> bool {
        valid_name(self.domain) && valid_name(self.signatory)
    }

    /// `signatory@domain`.
    pub open spec fn text(self) -> Seq<char> {
        pair_text(self.signatory, '@', self.domain)
    }
}

/// The fault of a text that is not an account id.
pub open spec fn account_fault(f: PairFault) -> ParseError {
    match f {
        PairFault::Format => ParseError::AccountFormat,
        PairFault::EmptyLeft => ParseError::AccountEmptySignatory,
        PairFault::EmptyRight => ParseError::AccountEmptyDomain,
        PairFault::BadLeft => ParseError::AccountSignatory,
        PairFault::BadRight => ParseError::AccountDomain,
    }
}

/// `s` read as `signatory@domain`.
pub open spec fn parse_account_id(s: Seq<char>) -> Result<AccountIdView, ParseError> {
    match parse_pair(s, '@') {
        Ok((signatory, domain)) => Ok(AccountIdView { domain, signatory }),
        Err(f) => Err(account_fault(f)),
    }
}

impl AccountId {
    pub open spec fn wf(&self) -> bool {
        self@.wf()
    }

    pub fn new(domain: DomainId, signatory: Name) -> (r: AccountId)
        ensures
            r@ == (AccountIdView { domain: domain@, signatory: signatory@ }),
    {
        AccountId { domain, signatory }
    }

    /// Reads `signatory@domain`.
    pub fn from_str(s: &str) -> (r: Result<AccountId, ParseError>)
        ensures
            match r {
                Ok(id) => parse_account_id(s@) == Ok::<AccountIdView, ParseError>(id@) && id.wf(),
                Err(e) => parse_account_id(s@) == Err::<AccountIdView, ParseError>(e),
            },
    {
        match read_pair(s, '@') {
            Ok((signatory, domain)) => Ok(AccountId { domain: DomainId { name: domain }, signatory }),
            Err(f) => Err(
                match f {
                    PairFault::Format => ParseError::AccountFormat,
                    PairFault::EmptyLeft => ParseError::AccountEmptySignatory,
                    PairFault::EmptyRight => ParseError::AccountEmptyDomain,
                    PairFault::BadLeft => ParseError::AccountSignatory,
                    PairFault::BadRight => ParseError::AccountDomain,
                },
            ),
        }
    }

    /// The textual form `signatory@domain`.
    pub fn to_string(&self) -> (r: String)
        ensures
            r@ == self@.text(),
    {
        proof {
            reveal_strlit("@");
        }
        write_pair(&self.signatory, "@", &self.domain.name)
    }

    pub fn same(&self, other: &AccountId) -> (r: bool)
        ensures
            r == (self@ == other@),
    {
        self.domain.same(&other.domain) && self.signatory.same(&other.signatory)
    }
}

impl Clone for AccountId {
    fn clone(&self) -> (r: AccountId)
        ensures
            r@ == self@,
    {
        AccountId { domain: self.domain.clone(), signatory: self.signatory.clone() }
    }
}

impl Key for AccountId {
    /// By domain, then by signatory.
    open spec fn key_lt(a: AccountIdView, b: AccountIdView) -> bool {
        pair_lt(a.domain, a.signatory, b.domain, b.signatory)
    }

    proof fn lemma_key_lt_irreflexive(a: AccountIdView) {
        lemma_pair_lt_irreflexive(a.domain, a.signatory);
    }

    proof fn lemma_key_lt_transitive(a: AccountIdView, b: AccountIdView, c: AccountIdView) {
        lemma_pair_lt_transitive(a.domain, a.signatory, b.domain, b.signatory, c.domain, c.signatory);
    }

    proof fn lemma_key_lt_total(a: AccountIdView, b: AccountIdView) {
        crate::text::lemma_seq_lt_total(a.domain, b.domain);
        crate::text::lemma_seq_lt_total(a.signatory, b.signatory);
    }

    fn compare(&self, other: &AccountId) -> (o: Order) {
        compare_pair(&self.domain.name, &self.signatory, &other.domain.name, &other.signatory)
    }

    fn duplicate(&self) -> (r: AccountId) {
        self.clone()
    }
}

/// An asset definition id as plain values.
pub struct AssetDefinitionIdView {
    pub domain: Seq<char>,
    pub name: Seq<char>,
}

/// Identifier of an asset definition: its name and the domain it lives in.
#[derive(Debug, PartialEq, Eq)]
pub struct AssetDefinitionId {
    pub domain: DomainId,
    pub name: Name,
}

impl View for AssetDefinitionId {
    type V = AssetDefinitionIdView;

    open spec fn view(&self) -> AssetDefinitionIdView {
        AssetDefinitionIdView { domain: self.domain@, name: self.name@ }
    }
}

impl AssetDefinitionIdView {
    pub open spec fn wf(self) -> bool {
        valid_name(self.domain) && valid_name(self.name)
    }

    /// `name#domain`.
    pub open spec fn text(self) -> Seq<char> {
        pair_text(self.name, '#', self.domain)
    }
}

/// The fault of a text that is not an asset definition id.
pub open spec fn asset_definition_fault(f: PairFault) -> ParseError {
    match f {
        PairFault::Format => ParseError::AssetDefinitionFormat,
        PairFault::EmptyLeft => ParseError::AssetDefinitionEmptyName,
        PairFault::EmptyRight => ParseError::AssetDefinitionEmptyDomain,
        PairFault::BadLeft => ParseError::AssetDefinitionName,
        PairFault::BadRight => ParseError::AssetDefinitionDomain,
    }
}

/// `s` read as `name#domain`.
pub open spec fn parse_asset_definition_id(s: Seq<char>) -> Result<
    AssetDefinitionIdView,
    ParseError,
> {
    match parse_pair(s, '#') {
        Ok((name, domain)) => Ok(AssetDefinitionIdView { domain, name }),
        Err(f) => Err(asset_definition_fault(f)),
    }
}

impl AssetDefinitionId {
    pub open spec fn wf(&self) -> bool {
        self@.wf()
    }

    pub fn new(domain: DomainId, name: Name) -> (r: AssetDefinitionId)
        ensures
            r@ == (AssetDefinitionIdView { domain: domain@, name: name@ }),
    {
        AssetDefinitionId { domain, name }
    }

    /// Reads `name#domain`.
    pub fn from_str(s: &str) -> (r: Result<AssetDefinitionId, ParseError>)
        ensures
            match r {
                Ok(id) => parse_asset_definition_id(s@) == Ok::<AssetDefinitionIdView, ParseError>(
                    id@,
                ) && id.wf(),
                Err(e) => parse_asset_definition_id(s@) == Err::<AssetDefinitionIdView, ParseError>(
                    e,
                ),
            },
    {
        match read_pair(s, '#') {
            Ok((name, domain)) => Ok(AssetDefinitionId { domain: DomainId { name: domain }, name }),
            Err(f) => Err(
                match f {
                    PairFault::Format => ParseError::AssetDefinitionFormat,
                    PairFault::EmptyLeft => ParseError::AssetDefinitionEmptyName,
                    PairFault::EmptyRight => ParseError::AssetDefinitionEmptyDomain,
                    PairFault::BadLeft => ParseError::AssetDefinitionName,
                    PairFault::BadRight => ParseError::AssetDefinitionDomain,
                },
            ),
        }
    }

    /// The textual form `name#domain`.
    pub fn to_string(&self) -> (r: String)
        ensures
            r@ == self@.text(),
    {
        proof {
            reveal_strlit("#");
        }
        write_pair(&self.name, "#", &self.domain.name)
    }

    pub fn same(&self, other: &AssetDefinitionId) -> (r: bool)
        ensures
            r == (self@ == other@),
    {
        self.domain.same(&other.domain) && self.name.same(&other.name)
    }
}

impl Clone for AssetDefinitionId {
    fn clone(&self) -> (r: AssetDefinitionId)
        ensures
            r@ == self@,
    {
        AssetDefinitionId { domain: self.domain.clone(), name: self.name.clone() }
    }
}

impl Key for AssetDefinitionId {
    /// By domain, then by name.
    open spec fn key_lt(a: AssetDefinitionIdView, b: AssetDefinitionIdView) -> bool {
        pair_lt(a.domain, a.name, b.domain, b.name)
    }

    proof fn lemma_key_lt_irreflexive(a: AssetDefinitionIdView) {
        lemma_pair_lt_irreflexive(a.domain, a.name);
    }

    proof fn lemma_key_lt_transitive(
        a: AssetDefinitionIdView,
        b: AssetDefinitionIdView,
        c: AssetDefinitionIdView,
    ) {
        lemma_pair_lt_transitive(a.domain, a.name, b.domain, b.name, c.domain, c.name);
    }

    proof fn lemma_key_lt_total(a: Self::V, b: Self::V) {
        crate::text::lemma_seq_lt_total(a.domain, b.domain);
        crate::text::lemma_seq_lt_total(a.name, b.name);
    }

    fn compare(&self, other: &AssetDefinitionId) -> (o: Order) {
        compare_pair(&self.domain.name, &self.name, &other.domain.name, &other.name)
    }

    fn duplicate(&self) -> (r: AssetDefinitionId) {
        self.clone()
    }
}

/// An NFT id as plain values.
pub struct NftIdView {
    pub domain: Seq<char>,
    pub name: Seq<char>,
}

/// Identifier of a non-fungible token: its name and the domain it lives in.
#[derive(Debug, PartialEq, Eq)]
pub struct NftId {
    /// Domain id.
    pub domain: DomainId,
    /// NFT name.
    pub name: Name,
}

impl View for NftId {
    type V = NftIdView;

    open spec fn view(&self) -> NftIdView {
        NftIdView { domain: self.domain@, name: self.name@ }
    }
}

impl NftIdView {
    pub open spec fn wf(self) -> bool {
        valid_name(self.domain) && valid_name(self.name)
    }

    /// `name$domain`.
    pub open spec fn text(self) -> Seq<char> {
        pair_text(self.name, '$', self.domain)
    }
}

/// The fault of a text that is not an NFT id.
pub open spec fn nft_fault(f: PairFault) -> ParseError {
    match f {
        PairFault::Format => ParseError::NftFormat,
        PairFault::EmptyLeft => ParseError::NftEmptyName,
        PairFault::EmptyRight => ParseError::NftEmptyDomain,
        PairFault::BadLeft => ParseError::NftName,
        PairFault::BadRight => ParseError::NftDomain,
    }
}

/// `s` read as `name$domain`.
pub open spec fn parse_nft_id(s: Seq<char>) -> Result<NftIdView, ParseError> {
    match parse_pair(s, '$') {
        Ok((name, domain)) => Ok(NftIdView { domain, name }),
        Err(f) => Err(nft_fault(f)),
    }
}

impl NftId {
    pub open spec fn wf(&self) -> bool {
        self@.wf()
    }

    pub fn new(domain: DomainId, name: Name) -> (r: NftId)
        ensures
            r@ == (NftIdView { domain: domain@, name: name@ }),
    {
        NftId { domain, name }
    }

    pub fn domain(&self) -> (r: &DomainId)
        ensures
            r@ == self@.domain,
    {
        &self.domain
    }

    pub fn name(&self) -> (r: &Name)
        ensures
            r@ == self@.name,
    {
        &self.name
    }

    /// Reads `name$domain`: the text is split at its last `$`, and both
    /// sides must be names.
    pub fn from_str(s: &str) -> (r: Result<NftId, ParseError>)
        ensures
            match r {
                Ok(id) => parse_nft_id(s@) == Ok::<NftIdView, ParseError>(id@) && id.wf(),
                Err(e) => parse_nft_id(s@) == Err::<NftIdView, ParseError>(e),
            },
    {
        match read_pair(s, '$') {
            Ok((name, domain)) => Ok(NftId { domain: DomainId { name: domain }, name }),
            Err(f) => Err(
                match f {
                    PairFault::Format => ParseError::NftFormat,
                    PairFault::EmptyLeft => ParseError::NftEmptyName,
                    PairFault::EmptyRight => ParseError::NftEmptyDomain,
                    PairFault::BadLeft => ParseError::NftName,
                    PairFault::BadRight => ParseError::NftDomain,
                },
            ),
        }
    }

    /// The textual form `name$domain`.
    pub fn to_string(&self) -> (r: String)
        ensures
            r@ == self@.text(),
    {
        proof {
            reveal_strlit("$");
        }
        write_pair(&self.name, "$", &self.domain.name)
    }

    pub fn same(&self, other: &NftId) -> (r: bool)
        ensures
            r == (self@ == other@),
    {
        self.domain.same(&other.domain) && self.name.same(&other.name)
    }
}

impl Clone for NftId {
    fn clone(&self) -> (r: NftId)
        ensures
            r@ == self@,
    {
        NftId { domain: self.domain.clone(), name: self.name.clone() }
    }
}

impl Key for NftId {
    /// By domain, then by name.
    open spec fn key_lt(a: NftIdView, b: NftIdView) -> bool {
        pair_lt(a.domain, a.name, b.domain, b.name)
    }

    proof fn lemma_key_lt_irreflexive(a: NftIdView) {
        lemma_pair_lt_irreflexive(a.domain, a.name);
    }

    proof fn lemma_key_lt_transitive(a: NftIdView, b: NftIdView, c: NftIdView) {
        lemma_pair_lt_transitive(a.domain, a.name, b.domain, b.name, c.domain, c.name);
    }

    proof fn lemma_key_lt_total(a: Self::V, b: Self::V) {
        crate::text::lemma_seq_lt_total(a.domain, b.domain);
        crate::text::lemma_seq_lt_total(a.name, b.name);
    }

    fn compare(&self, other: &NftId) -> (o: Order) {
        compare_pair(&self.domain.name, &self.name, &other.domain.name, &other.name)
    }

    fn duplicate(&self) -> (r: NftId) {
        self.clone()
    }
}

/// An asset id as plain values.
pub struct AssetIdView {
    pub account: AccountIdView,
    pub definition: AssetDefinitionIdView,
}

/// Identifier of an asset: the definition it is an amount of and the account
/// that holds it.
#[derive(Debug, PartialEq, Eq)]
pub struct AssetId {
    pub account: AccountId,
    pub definition: AssetDefinitionId,
}

impl View for AssetId {
    type V = AssetIdView;

    open spec fn view(&self) -> AssetIdView {
        AssetIdView { account: self.account@, definition: self.definition@ }
    }
}

impl AssetIdView {
    pub open spec fn wf(self) -> bool {
        self.account.wf() && self.definition.wf()
    }

    /// `name#domain#signatory@domain`, or `name##signatory@domain` when the
    /// definition and the account live in the same domain.
    pub open spec fn text(self) -> Seq<char> {
        if self.definition.domain == self.account.domain {
            self.definition.name + seq!['#', '#'] + self.account.text()
        } else {
            self.definition.text() + seq!['#'] + self.account.text()
        }
    }
}

/// `s` read as an asset id: split at the last `#`, the right side is the
/// account; the left side is the definition, with the account's domain
/// appended where it ends in `#`.
pub open spec fn parse_asset_id(s: Seq<char>) -> Result<AssetIdView, ParseError> {
    match split_last(s, '#') {
        None => Err(ParseError::AssetFormat),
        Some((left, right)) => match parse_account_id(right) {
            Err(_) => Err(ParseError::AssetAccount),
            Ok(account) => {
                let definition_text = if left.len() > 0 && left.last() == '#' {
                    left + account.domain
                } else {
                    left
                };
                match parse_asset_definition_id(definition_text) {
                    Err(_) => Err(ParseError::AssetDefinition),
                    Ok(definition) => Ok(AssetIdView { account, definition }),
                }
            },
        },
    }
}

impl AssetId {
    pub open spec fn wf(&self) -> bool {
        self@.wf()
    }

    pub fn new(definition: AssetDefinitionId, account: AccountId) -> (r: AssetId)
        ensures
            r@ == (AssetIdView { account: account@, definition: definition@ }),
    {
        AssetId { account, definition }
    }

    /// Reads `name#domain#signatory@domain` or `name##signatory@domain`.
    pub fn from_str(s: &str) -> (r: Result<AssetId, ParseError>)
        ensures
            match r {
                Ok(id) => parse_asset_id(s@) == Ok::<AssetIdView, ParseError>(id@) && id.wf(),
                Err(e) => parse_asset_id(s@) == Err::<AssetIdView, ParseError>(e),
            },
    {
        let chars = chars_of(s);
        let i = match find_last(&chars, '#') {
            Some(i) => i,
            None => { return Err(ParseError::AssetFormat); },
        };
        assert(i < chars.len());
        let account = match AccountId::from_str(s.substring_char(i + 1, chars.len())) {
            Ok(account) => account,
            Err(_) => { return Err(ParseError::AssetAccount); },
        };
        let mut definition_text = s.substring_char(0, i).to_owned();
        if i > 0 && chars[i - 1] == '#' {
            definition_text.append(account.domain.name.as_str());
        }
        match AssetDefinitionId::from_str(definition_text.as_str()) {
            Ok(definition) => Ok(AssetId { account, definition }),
            Err(_) => Err(ParseError::AssetDefinition),
        }
    }

    /// The textual form, in the short form where both domains are equal.
    pub fn to_string(&self) -> (r: String)
        ensures
            r@ == self@.text(),
    {
        let account = self.account.to_string();
        if self.definition.domain.same(&self.account.domain) {
            let mut text = self.definition.name.as_str().to_owned();
            proof {
                reveal_strlit("##");
            }
            text.append("##");
            text.append(account.as_str());
            proof {
                assert("##"@ =~= seq!['#', '#']);
            }
            text
        } else {
            let mut text = self.definition.to_string();
            proof {
                reveal_strlit("#");
            }
            text.append("#");
            text.append(account.as_str());
            proof {
                assert("#"@ =~= seq!['#']);
            }
            text
        }
    }

    pub fn same(&self, other: &AssetId) -> (r: bool)
        ensures
            r == (self@ == other@),
    {
        self.account.same(&other.account) && self.definition.same(&other.definition)
    }
}

impl Clone for AssetId {
    fn clone(&self) -> (r: AssetId)
        ensures
            r@ == self@,
    {
        AssetId { account: self.account.clone(), definition: self.definition.clone() }
    }
}

impl Key for AssetId {
    /// By account, then by definition.
    open spec fn key_lt(a: AssetIdView, b: AssetIdView) -> bool {
        AccountId::key_lt(a.account, b.account) || (a.account == b.account
            && AssetDefinitionId::key_lt(a.definition, b.definition))
    }

    proof fn lemma_key_lt_irreflexive(a: AssetIdView) {
        AccountId::lemma_key_lt_irreflexive(a.account);
        AssetDefinitionId::lemma_key_lt_irreflexive(a.definition);
    }

    proof fn lemma_key_lt_transitive(a: AssetIdView, b: AssetIdView, c: AssetIdView) {
        if AccountId::key_lt(a.account, b.account) && AccountId::key_lt(b.account, c.account) {
            AccountId::lemma_key_lt_transitive(a.account, b.account, c.account);
        }
        if AssetDefinitionId::key_lt(a.definition, b.definition) && AssetDefinitionId::key_lt(
            b.definition,
            c.definition,
        ) {
            AssetDefinitionId::lemma_key_lt_transitive(a.definition, b.definition, c.definition);
        }
    }

    proof fn lemma_key_lt_total(a: AssetIdView, b: AssetIdView) {
        AccountId::lemma_key_lt_total(a.account, b.account);
        AssetDefinitionId::lemma_key_lt_total(a.definition, b.definition);
    }

    fn compare(&self, other: &AssetId) -> (o: Order) {
        proof {
            AccountId::lemma_key_lt_irreflexive(self@.account);
            AssetDefinitionId::lemma_key_lt_irreflexive(self@.definition);
            if AccountId::key_lt(self@.account, other@.account) && AccountId::key_lt(
                other@.account,
                self@.account,
            ) {
                AccountId::lemma_key_lt_transitive(self@.account, other@.account, self@.account);
            }
        }
        match self.account.compare(&other.account) {
            Order::Less => Order::Less,
            Order::Greater => Order::Greater,
            Order::Equal => self.definition.compare(&other.definition),
        }
    }

    fn duplicate(&self) -> (r: AssetId) {
        self.clone()
    }
}

/// The text of an account id reads back as the id.
pub proof fn lemma_account_id_round_trip(id: AccountIdView)
    requires
        id.wf(),
    ensures
        parse_account_id(id.text()) == Ok::<AccountIdView, ParseError>(id),
{
    lemma_pair_round_trip(id.signatory, '@', id.domain);
}

/// The text of an asset definition id reads back as the id.
pub proof fn lemma_asset_definition_id_round_trip(id: AssetDefinitionIdView)
    requires
        id.wf(),
    ensures
        parse_asset_definition_id(id.text()) == Ok::<AssetDefinitionIdView, ParseError>(id),
{
    lemma_pair_round_trip(id.name, '#', id.domain);
}

/// The text of an NFT id reads back as the id.
pub proof fn lemma_nft_id_round_trip(id: NftIdView)
    requires
        id.wf(),
    ensures
        parse_nft_id(id.text()) == Ok::<NftIdView, ParseError>(id),
{
    lemma_pair_round_trip(id.name, '$', id.domain);
}

/// The text of an asset id, in its short form where that applies and in its
/// long form where it does not, reads back as the id.
pub proof fn lemma_asset_id_round_trip(id: AssetIdView)
    requires
        id.wf(),
    ensures
        parse_asset_id(id.text()) == Ok::<AssetIdView, ParseError>(id),
{
    let account = id.account.text();
    let text = id.text();
    let short = id.definition.domain == id.account.domain;
    let left = if short {
        id.definition.name + seq!['#']
    } else {
        id.definition.text()
    };
    assert(text =~= left + seq!['#'] + account);
    let i = left.len() as int;
    assert(text[i] == '#');
    assert forall|j: int| i < j < text.len() implies #[trigger] text[j] != '#' by {
        let k = j - i - 1;
        assert(text[j] == account[k]);
        if k < id.account.signatory.len() {
            assert(account[k] == id.account.signatory[k]);
        } else if k > id.account.signatory.len() {
            assert(account[k] == id.account.domain[k - id.account.signatory.len() - 1]);
        }
    }
    assert(last_at(text, '#', i));
    let w = choose|w: int| last_at(text, '#', w);
    lemma_last_at_unique(text, '#', i, w);
    assert(text.subrange(0, i) =~= left);
    assert(text.subrange(i + 1, text.len() as int) =~= account);
    lemma_account_id_round_trip(id.account);
    lemma_asset_definition_id_round_trip(id.definition);
    if short {
        assert(left.last() == '#');
        assert(left + id.account.domain =~= id.definition.text());
    } else {
        assert(left.last() == id.definition.domain.last());
    }
}

/// Identifier of a role: its name.
#[derive(Debug, PartialEq, Eq)]
pub struct RoleId {
    pub name: Name,
}

impl View for RoleId {
    type V = Seq<char>;

    open spec fn view(&self) -> Seq<char> {
        self.name@
    }
}

impl RoleId {
    pub fn new(name: Name) -> (r: RoleId)
        ensures
            r@ == name@,
    {
        RoleId { name }
    }

    /// Reads the identifier: a name.
    pub fn from_str(s: &str) -> (r: Result<RoleId, ParseError>)
        ensures
            match r {
                Ok(id) => valid_name(s@) && id@ == s@,
                Err(e) => !valid_name(s@) && e == crate::name::name_fault(s@),
            },
    {
        match Name::from_str(s) {
            Ok(name) => Ok(RoleId { name }),
            Err(e) => Err(e),
        }
    }

    /// The textual form: the name.
    pub fn to_string(&self) -> (r: String)
        ensures
            r@ == self@,
    {
        self.name.as_str().to_owned()
    }
}

impl Clone for RoleId {
    fn clone(&self) -> (r: RoleId)
        ensures
            r@ == self@,
    {
        RoleId { name: self.name.clone() }
    }
}

/// Identifier of a trigger: its name.
#[derive(Debug, PartialEq, Eq)]
pub struct TriggerId {
    pub name: Name,
}

impl View for TriggerId {
    type V = Seq<char>;

    open spec fn view(&self) -> Seq<char> {
        self.name@
    }
}

impl TriggerId {
    pub fn new(name: Name) -> (r: TriggerId)
        ensures
            r@ == name@,
    {
        TriggerId { name }
    }

    /// Reads the identifier: a name.
    pub fn from_str(s: &str) -> (r: Result<TriggerId, ParseError>)
        ensures
            match r {
                Ok(id) => valid_name(s@) && id@ == s@,
                Err(e) => !valid_name(s@) && e == crate::name::name_fault(s@),
            },
    {
        match Name::from_str(s) {
            Ok(name) => Ok(TriggerId { name }),
            Err(e) => Err(e),
        }
    }

    /// The textual form: the name.
    pub fn to_string(&self) -> (r: String)
        ensures
            r@ == self@,
    {
        self.name.as_str().to_owned()
    }
}

impl Clone for TriggerId {
    fn clone(&self) -> (r: TriggerId)
        ensures
            r@ == self@,
    {
        TriggerId { name: self.name.clone() }
    }
}

/// Identifier of a permission: its name.
#[derive(Debug, PartialEq, Eq)]
pub struct PermissionId {
    pub name: Name,
}

impl View for PermissionId {
    type V = Seq<char>;

    open spec fn view(&self) -> Seq<char> {
        self.name@
    }
}

impl PermissionId {
    pub fn new(name: Name) -> (r: PermissionId)
        ensures
            r@ == name@,
    {
        PermissionId { name }
    }

    /// Reads the identifier: a name.
    pub fn from_str(s: &str) -> (r: Result<PermissionId, ParseError>)
        ensures
            match r {
                Ok(id) => valid_name(s@) && id@ == s@,
                Err(e) => !valid_name(s@) && e == crate::name::name_fault(s@),
            },
    {
        match Name::from_str(s) {
            Ok(name) => Ok(PermissionId { name }),
            Err(e) => Err(e),
        }
    }

    /// The textual form: the name.
    pub fn to_string(&self) -> (r: String)
        ensures
            r@ == self@,
    {
        self.name.as_str().to_owned()
    }
}

impl Clone for PermissionId {
    fn clone(&self) -> (r: PermissionId)
        ensures
            r@ == self@,
    {
        PermissionId { name: self.name.clone() }
    }
}

} // verus!
