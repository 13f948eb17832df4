//! Names: the validated tokens that identifiers are made of.

use vstd::prelude::*;
use vstd::string::*;
use crate::registry::Key;
use crate::text::{chars_of, compare_str, lemma_seq_lt_irreflexive, lemma_seq_lt_transitive, seq_lt, Order};

verus! {

/// Why a text is not an identifier.
#[derive(Clone, Copy, Debug, PartialEq, Eq, Structural)]
pub enum ParseError {
    /// A name is empty.
    NameEmpty,
    /// A name holds white space.
    NameWhitespace,
    /// A name holds one of the separators `@`, `#`, `$`.
    NameReserved,
    /// An NFT id has no `$`.
    NftFormat,
    /// Nothing stands before the `$` of an NFT id.
    NftEmptyName,
    /// Nothing stands after the `$` of an NFT id.
    NftEmptyDomain,
    /// What stands before the `$` of an NFT id is not a name.
    NftName,
    /// What stands after the `$` of an NFT id is not a name.
    NftDomain,
    /// An asset definition id has no `#`.
    AssetDefinitionFormat,
    /// Nothing stands before the `#` of an asset definition id.
    AssetDefinitionEmptyName,
    /// Nothing stands after the `#` of an asset definition id.
    AssetDefinitionEmptyDomain,
    /// What stands before the `#` of an asset definition id is not a name.
    AssetDefinitionName,
    /// What stands after the `#` of an asset definition id is not a name.
    AssetDefinitionDomain,
    /// An account id has no `@`.
    AccountFormat,
    /// Nothing stands before the `@` of an account id.
    AccountEmptySignatory,
    /// Nothing stands after the `@` of an account id.
    AccountEmptyDomain,
    /// What stands before the `@` of an account id is not a key token.
    AccountSignatory,
    /// What stands after the `@` of an account id is not a name.
    AccountDomain,
    /// An asset id has no `#`.
    AssetFormat,
    /// What stands after the last `#` of an asset id is not an account id.
    AssetAccount,
    /// What stands before the last `#` of an asset id, completed by the
    /// account's domain where it ends in `#`, is not an asset definition id.
    AssetDefinition,
}

impl ParseError {
    /// The fault in words.
    pub open spec fn reason_text(self) -> Seq<char> {
        match self {
            ParseError::NameEmpty => "Empty `Name`"@,
            ParseError::NameWhitespace => "White space not allowed in `Name` constructs"@,
            ParseError::NameReserved => "The characters `@`, `#` and `$` are reserved for `account@domain`, `asset#domain` and `nft$domain` constructs"@,
            ParseError::NftFormat => "Non Fungible Asset ID should have format `name$domain`"@,
            ParseError::NftEmptyName => "Empty `name` part in `name$domain`"@,
            ParseError::NftEmptyDomain => "Empty `domain` part in `name$domain`"@,
            ParseError::NftName => "Failed to parse `name` part in `name$domain`"@,
            ParseError::NftDomain => "Failed to parse `domain` part in `name$domain`"@,
            ParseError::AssetDefinitionFormat => "Asset Definition ID should have format `name#domain`"@,
            ParseError::AssetDefinitionEmptyName => "Empty `name` part in `name#domain`"@,
            ParseError::AssetDefinitionEmptyDomain => "Empty `domain` part in `name#domain`"@,
            ParseError::AssetDefinitionName => "Failed to parse `name` part in `name#domain`"@,
            ParseError::AssetDefinitionDomain => "Failed to parse `domain` part in `name#domain`"@,
            ParseError::AccountFormat => "Account ID should have format `signatory@domain`"@,
            ParseError::AccountEmptySignatory => "Empty `signatory` part in `signatory@domain`"@,
            ParseError::AccountEmptyDomain => "Empty `domain` part in `signatory@domain`"@,
            ParseError::AccountSignatory => "Failed to parse `signatory` part in `signatory@domain`"@,
            ParseError::AccountDomain => "Failed to parse `domain` part in `signatory@domain`"@,
            ParseError::AssetFormat => "Asset ID should have format `asset#domain#account@domain`, or `asset##account@domain` for the same domains"@,
            ParseError::AssetAccount => "Failed to parse `account@domain` part in `asset#domain#account@domain`"@,
            ParseError::AssetDefinition => "Failed to parse `asset#domain` (or `asset#`) part in `asset#domain#account@domain` (or `asset##account@domain`)"@,
        }
    }

    /// The fault in words.
    pub fn reason(&self) -> (r: &'static str)
        ensures
            r@ == self.reason_text(),
    {
        match self {
            ParseError::NameEmpty => "Empty `Name`",
            ParseError::NameWhitespace => "White space not allowed in `Name` constructs",
            ParseError::NameReserved => "The characters `@`, `#` and `$` are reserved for `account@domain`, `asset#domain` and `nft$domain` constructs",
            ParseError::NftFormat => "Non Fungible Asset ID should have format `name$domain`",
            ParseError::NftEmptyName => "Empty `name` part in `name$domain`",
            ParseError::NftEmptyDomain => "Empty `domain` part in `name$domain`",
            ParseError::NftName => "Failed to parse `name` part in `name$domain`",
            ParseError::NftDomain => "Failed to parse `domain` part in `name$domain`",
            ParseError::AssetDefinitionFormat => "Asset Definition ID should have format `name#domain`",
            ParseError::AssetDefinitionEmptyName => "Empty `name` part in `name#domain`",
            ParseError::AssetDefinitionEmptyDomain => "Empty `domain` part in `name#domain`",
            ParseError::AssetDefinitionName => "Failed to parse `name` part in `name#domain`",
            ParseError::AssetDefinitionDomain => "Failed to parse `domain` part in `name#domain`",
            ParseError::AccountFormat => "Account ID should have format `signatory@domain`",
            ParseError::AccountEmptySignatory => "Empty `signatory` part in `signatory@domain`",
            ParseError::AccountEmptyDomain => "Empty `domain` part in `signatory@domain`",
            ParseError::AccountSignatory => "Failed to parse `signatory` part in `signatory@domain`",
            ParseError::AccountDomain => "Failed to parse `domain` part in `signatory@domain`",
            ParseError::AssetFormat => "Asset ID should have format `asset#domain#account@domain`, or `asset##account@domain` for the same domains",
            ParseError::AssetAccount => "Failed to parse `account@domain` part in `asset#domain#account@domain`",
            ParseError::AssetDefinition => "Failed to parse `asset#domain` (or `asset#`) part in `asset#domain#account@domain` (or `asset##account@domain`)",
        }
    }
}

/// A character with the Unicode property `White_Space`.
pub open spec fn is_whitespace(c: char) -> bool {
    ||| ('\u{9}' <= c && c <= '\u{d}')
    ||| c == ' '
    ||| c == '\u{85}'
    ||| c == '\u{a0}'
    ||| c == '\u{1680}'
    ||| ('\u{2000}' <= c && c <= '\u{200a}')
    ||| c == '\u{2028}'
    ||| c == '\u{2029}'
    ||| c == '\u{202f}'
    ||| c == '\u{205f}'
    ||| c == '\u{3000}'
}

/// One of the separators of the identifier grammar.
pub open spec fn is_reserved(c: char) -> bool {
    c == '@' || c == '#' || c == '$'
}

/// A name is not empty and holds neither white space nor a separator.
pub open spec fn valid_name(s: Seq<char>) -> bool {
    &&& s.len() > 0
    &&& forall|i: int| 0 <= i < s.len() ==> !is_whitespace(#[trigger] s[i])
    &&& forall|i: int| 0 <= i < s.len() ==> !is_reserved(#[trigger] s[i])
}

/// The fault of a text that is not a name: emptiness first, then white
/// space anywhere, then a separator.
pub open spec fn name_fault(s: Seq<char>) -> ParseError {
    if s.len() == 0 {
        ParseError::NameEmpty
    } else if exists|i: int| 0 <= i < s.len() && is_whitespace(#[trigger] s[i]) {
        ParseError::NameWhitespace
    } else {
        ParseError::NameReserved
    }
}

fn whitespace(c: char) -> (r: bool)
    ensures
        r == is_whitespace(c),
{
    ('\u{9}' <= c && c <= '\u{d}') || c == ' ' || c == '\u{85}' || c == '\u{a0}' || c
        == '\u{1680}' || ('\u{2000}' <= c && c <= '\u{200a}') || c == '\u{2028}' || c
        == '\u{2029}' || c == '\u{202f}' || c == '\u{205f}' || c == '\u{3000}'
}

fn reserved(c: char) -> (r: bool)
    ensures
        r == is_reserved(c),
{
    c == '@' || c == '#' || c == '$'
}

/// Checks the rule of [`valid_name`] on a run of characters.
pub fn check_name(chars: &Vec<char>) -> (r: Result<(), ParseError>)
    ensures
        r is Ok <==> valid_name(chars@),
        r is Err ==> r == Err::<(), ParseError>(name_fault(chars@)),
{
    if chars.len() == 0 {
        return Err(ParseError::NameEmpty);
    }
    let mut i: usize = 0;
    while i < chars.len()
        invariant
            i <= chars.len(),
            forall|j: int| 0 <= j < i ==> !is_whitespace(#[trigger] chars@[j]),
        decreases chars.len() - i,
    {
        if whitespace(chars[i]) {
            return Err(ParseError::NameWhitespace);
        }
        i = i + 1;
    }
    let mut k: usize = 0;
    while k < chars.len()
        invariant
            k <= chars.len(),
            chars.len() > 0,
            forall|j: int| 0 <= j < chars.len() ==> !is_whitespace(#[trigger] chars@[j]),
            forall|j: int| 0 <= j < k ==> !is_reserved(#[trigger] chars@[j]),
        decreases chars.len() - k,
    {
        if reserved(chars[k]) {
            return Err(ParseError::NameReserved);
        }
        k = k + 1;
    }
    Ok(())
}

/// A non-empty token without white space and without the separators `@`,
/// `#`, `$`.
#[derive(Debug, PartialEq, Eq)]
pub struct Name {
    text: String,
}

impl View for Name {
    type V = Seq<char>;

    closed spec fn view(&self) -> Seq<char> {
        self.text@
    }
}

impl Name {
    /// The name obeys the rule of [`valid_name`].
    pub open spec fn wf(&self) -> bool {
        valid_name(self@)
    }

    /// Reads a name: the whole of `s`, when it obeys the rule of names.
    pub fn from_str(s: &str) -> (r: Result<Name, ParseError>)
        ensures
            match r {
                Ok(name) => valid_name(s@) && name@ == s@ && name.wf(),
                Err(e) => !valid_name(s@) && e == name_fault(s@),
            },
    {
        let chars = chars_of(s);
        match check_name(&chars) {
            Ok(()) => Ok(Name { text: s.to_owned() }),
            Err(e) => Err(e),
        }
    }

    pub fn as_str(&self) -> (s: &str)
        ensures
            s@ == self@,
    {
        self.text.as_str()
    }

    /// Whether both names hold the same text.
    pub fn same(&self, other: &Name) -> (r: bool)
        ensures
            r == (self@ == other@),
    {
        self.text == other.text
    }
}

impl Clone for Name {
    fn clone(&self) -> (r: Name)
        ensures
            r@ == self@,
    {
        Name { text: self.text.clone() }
    }
}

impl Key for Name {
    open spec fn key_lt(a: Seq<char>, b: Seq<char>) -> bool {
        seq_lt(a, b)
    }

    proof fn lemma_key_lt_irreflexive(a: Seq<char>) {
        lemma_seq_lt_irreflexive(a);
    }

    proof fn lemma_key_lt_transitive(a: Seq<char>, b: Seq<char>, c: Seq<char>) {
        lemma_seq_lt_transitive(a, b, c);
    }

    proof fn lemma_key_lt_total(a: Seq<char>, b: Seq<char>) {
        crate::text::lemma_seq_lt_total(a, b);
    }

    fn compare(&self, other: &Name) -> (o: Order) {
        let o = compare_str(self.text.as_str(), other.text.as_str());
        proof {
            assert(self@ == self.text@);
            assert(other@ == other.text@);
            assert(Self::key_lt(self@, other@) == seq_lt(self@, other@));
            assert(Self::key_lt(other@, self@) == seq_lt(other@, self@));
        }
        o
    }

    fn duplicate(&self) -> (r: Name) {
        self.clone()
    }
}

/// The position of the last `sep` in `s`.
pub open spec fn last_at(s: Seq<char>, sep: char, i: int) -> bool {
    &&& 0 <= i < s.len()
    &&& s[i] == sep
    &&& forall|j: int| i < j < s.len() ==> #[trigger] s[j] != sep
}

/// `s` split at its last `sep`: what stands before it and what stands after
/// it, or `None` when `s` holds no `sep`.
pub open spec fn split_last(s: Seq<char>, sep: char) -> Option<(Seq<char>, Seq<char>)> {
    if exists|i: int| last_at(s, sep, i) {
        let i = choose|i: int| last_at(s, sep, i);
        Some((s.subrange(0, i), s.subrange(i + 1, s.len() as int)))
    } else {
        None
    }
}

/// The last `sep` stands at one position only.
pub proof fn lemma_last_at_unique(s: Seq<char>, sep: char, i: int, j: int)
    requires
        last_at(s, sep, i),
        last_at(s, sep, j),
    ensures
        i == j,
{
}

/// Finds the last `sep` among `chars`.
pub fn find_last(chars: &Vec<char>, sep: char) -> (r: Option<usize>)
    ensures
        match r {
            Some(i) => last_at(chars@, sep, i as int) && split_last(chars@, sep) == Some(
                (chars@.subrange(0, i as int), chars@.subrange(i + 1, chars@.len() as int)),
            ),
            None => split_last(chars@, sep) is None,
        },
{
    let mut i: usize = chars.len();
    while i > 0
        invariant
            i <= chars.len(),
            forall|j: int| i <= j < chars.len() ==> #[trigger] chars@[j] != sep,
        decreases i,
    {
        i = i - 1;
        if chars[i] == sep {
            proof {
                assert(last_at(chars@, sep, i as int));
                let w = choose|w: int| last_at(chars@, sep, w);
                lemma_last_at_unique(chars@, sep, i as int, w);
            }
            return Some(i);
        }
    }
    None
}

/// An opaque JSON text, stored as it was given.
#[derive(Debug, PartialEq, Eq)]
pub struct Json {
    text: String,
}

impl View for Json {
    type V = Seq<char>;

    closed spec fn view(&self) -> Seq<char> {
        self.text@
    }
}

impl Json {
    pub fn new(text: &str) -> (r: Json)
        ensures
            r@ == text@,
    {
        Json { text: text.to_owned() }
    }

    pub fn as_str(&self) -> (s: &str)
        ensures
            s@ == self@,
    {
        self.text.as_str()
    }

    /// Whether both hold the same text.
    pub fn same(&self, other: &Json) -> (r: bool)
        ensures
            r == (self@ == other@),
    {
        self.text == other.text
    }
}

impl Clone for Json {
    fn clone(&self) -> (r: Json)
        ensures
            r@ == self@,
    {
        Json { text: self.text.clone() }
    }
}

} // verus!
