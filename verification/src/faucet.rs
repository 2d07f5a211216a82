//! The faucet of bridged assets.
use vstd::prelude::*;

use crate::account::{account_id_fault, AccountId, AccountIdError, AccountType, RawAccountId};
use crate::asset::MAX_AMOUNT;
use crate::faucet_laws::{encoded_letters, is_symbol, law_token_symbols};
use crate::word::{Felt, RawWord, Word};

verus! {

/// The largest number of decimals that a token can have.
pub const MAX_DECIMALS: u8 = 12;

/// The number of letters from which token symbols are made.
pub const ALPHABET_LENGTH: u64 = 26;

/// The largest number of letters of a token symbol.
pub const MAX_SYMBOL_LENGTH: u64 = 12;

// TOKEN SYMBOL
// ================================================================================================

/// The number of words of the given length over the alphabet.
pub open spec fn symbols_of_length(length: int) -> int
    decreases length,
{
    if length <= 0 {
        1
    } else {
        ALPHABET_LENGTH * symbols_of_length(length - 1)
    }
}

/// What is wrong with an integer as a token symbol, if anything. The remainder by the size of the
/// alphabet is the number of letters, and the quotient has the letters as its digits.
pub open spec fn symbol_fault(encoded: u64) -> Option<TokenSymbolError> {
    if encoded % ALPHABET_LENGTH == 0 || encoded % ALPHABET_LENGTH > MAX_SYMBOL_LENGTH {
        Some(TokenSymbolError::InvalidLength(encoded % ALPHABET_LENGTH))
    } else if encoded / ALPHABET_LENGTH >= symbols_of_length((encoded % ALPHABET_LENGTH) as int) {
        Some(TokenSymbolError::DataNotFullyDecoded)
    } else {
        None
    }
}

/// The ways in which a field element can fail to be a token symbol.
#[derive(Clone, Copy, Debug, PartialEq, Eq, Structural)]
pub enum TokenSymbolError {
    /// The number of letters is zero or too large.
    InvalidLength(u64),
    /// There are more letters than the number of letters says.
    DataNotFullyDecoded,
}

/// The symbol of a token, held as the field element that encodes it.
#[derive(Clone, Copy, Debug)]
pub struct TokenSymbol {
    encoded: Felt,
}

impl View for TokenSymbol {
    type V = u64;

    closed spec fn view(&self) -> u64 {
        self.encoded@
    }
}

impl TokenSymbol {
    /// The element encodes a token symbol.
    #[verifier::type_invariant]
    pub open spec fn well_formed(self) -> bool {
        symbol_fault(self@) is None
    }

    /// Creates a token symbol from the element that encodes it.
    ///
    /// # Errors
    ///
    /// Returns an error if the element encodes no token symbol.
    pub fn try_from_felt(encoded: Felt) -> (r: Result<TokenSymbol, TokenSymbolError>)
        ensures
            match symbol_fault(encoded@) {
                None => r matches Ok(symbol) && symbol@ == encoded@,
                Some(err) => r == Err::<TokenSymbol, _>(err),
            },
            r is Ok <==> exists|letters: Seq<int>| #[trigger]
                is_symbol(letters) && encoded_letters(letters) == encoded@,
    {
        proof {
            law_token_symbols(encoded@);
        }
        let value: u64 = encoded.as_canonical_u64();
        let length: u64 = value % ALPHABET_LENGTH;
        if length == 0 || length > MAX_SYMBOL_LENGTH {
            return Err(TokenSymbolError::InvalidLength(length));
        }
        let mut rest: u64 = value / ALPHABET_LENGTH;
        let mut read: u64 = 0;
        while read < length
            invariant
                read <= length,
                value / ALPHABET_LENGTH < symbols_of_length(length as int) <==> rest
                    < symbols_of_length(length - read),
            decreases length - read,
        {
            proof {
                lemma_drop_letter(rest, length - read);
            }
            rest = rest / ALPHABET_LENGTH;
            read += 1;
        }
        if rest != 0 {
            return Err(TokenSymbolError::DataNotFullyDecoded);
        }
        Ok(TokenSymbol { encoded })
    }

    /// Returns the element that encodes the symbol.
    pub fn as_felt(&self) -> (r: Felt)
        ensures
            r@ == self@,
            symbol_fault(self@) is None,
    {
        proof {
            use_type_invariant(self);
        }
        self.encoded
    }
}

/// A number is one of a word of some length if and only if, without its lowest digit, it is one of
/// a word that is one letter shorter.
proof fn lemma_drop_letter(value: u64, length: int)
    requires
        length > 0,
    ensures
        value < symbols_of_length(length) <==> value / ALPHABET_LENGTH < symbols_of_length(
            length - 1,
        ),
{
    let m = symbols_of_length(length - 1);
    let v = value as int;
    assert(v < 26 * m <==> v / 26 < m) by (nonlinear_arith);
}

// TOKEN METADATA
// ================================================================================================

/// The value of the metadata of a token.
pub struct TokenMetadataState {
    pub symbol: u64,
    pub decimals: u8,
    pub max_supply: u64,
    pub token_supply: u64,
}

/// What is wrong with the numbers of a token, if anything.
pub open spec fn metadata_fault(decimals: u8, max_supply: u64, token_supply: u64) -> Option<
    FungibleFaucetError,
> {
    if decimals > MAX_DECIMALS {
        Some(FungibleFaucetError::TooManyDecimals { actual: decimals as u64, max: MAX_DECIMALS })
    } else if max_supply > MAX_AMOUNT {
        Some(FungibleFaucetError::MaxSupplyTooLarge { actual: max_supply, max: MAX_AMOUNT })
    } else {
        supply_fault(max_supply, token_supply)
    }
}

/// What is wrong with the supply of a token, if anything.
pub open spec fn supply_fault(max_supply: u64, token_supply: u64) -> Option<FungibleFaucetError> {
    if token_supply > max_supply {
        Some(FungibleFaucetError::TokenSupplyExceedsMaxSupply { token_supply, max_supply })
    } else {
        None
    }
}

/// The word of the metadata of a token: `[token_supply, max_supply, decimals, symbol]`.
pub open spec fn metadata_word(metadata: TokenMetadataState) -> RawWord {
    (metadata.token_supply, metadata.max_supply, metadata.decimals as u64, metadata.symbol)
}

/// The metadata of a token that a word holds, or what is wrong with it.
pub open spec fn decoded_metadata(word: RawWord) -> Result<
    TokenMetadataState,
    FungibleFaucetError,
> {
    match symbol_fault(word.3) {
        Some(err) => Err(FungibleFaucetError::InvalidTokenSymbol(err)),
        None => if word.2 > u8::MAX {
            Err(FungibleFaucetError::TooManyDecimals { actual: word.2, max: MAX_DECIMALS })
        } else {
            match metadata_fault(word.2 as u8, word.1, word.0) {
                Some(err) => Err(err),
                None => Ok(
                    TokenMetadataState {
                        symbol: word.3,
                        decimals: word.2 as u8,
                        max_supply: word.1,
                        token_supply: word.0,
                    },
                ),
            }
        },
    }
}

/// What holds of the metadata of every token.
pub open spec fn valid_metadata(metadata: TokenMetadataState) -> bool {
    &&& symbol_fault(metadata.symbol) is None
    &&& metadata_fault(metadata.decimals, metadata.max_supply, metadata.token_supply) is None
}

/// Decoding the word of the metadata of a token gives back the metadata.
pub proof fn law_metadata_round_trip(metadata: TokenMetadataState)
    requires
        valid_metadata(metadata),
    ensures
        decoded_metadata(metadata_word(metadata)) == Ok::<_, FungibleFaucetError>(metadata),
{
}

/// Only the word of the metadata of a token is decoded to it, and what is decoded is valid.
pub proof fn law_decoded_metadata_is_valid(word: RawWord, metadata: TokenMetadataState)
    requires
        decoded_metadata(word) == Ok::<_, FungibleFaucetError>(metadata),
    ensures
        valid_metadata(metadata),
        metadata_word(metadata) == word,
{
}

/// The ways in which the metadata of a token can be invalid.
#[derive(Clone, Copy, Debug, PartialEq, Eq, Structural)]
pub enum FungibleFaucetError {
    /// There are too many decimals.
    TooManyDecimals { actual: u64, max: u8 },
    /// The largest supply is too large for a fungible asset.
    MaxSupplyTooLarge { actual: u64, max: u64 },
    /// The supply exceeds the largest supply.
    TokenSupplyExceedsMaxSupply { token_supply: u64, max_supply: u64 },
    /// The symbol is invalid.
    InvalidTokenSymbol(TokenSymbolError),
}

/// The metadata of a token: its symbol, its decimals, its largest supply and its supply.
#[derive(Clone, Copy, Debug)]
pub struct TokenMetadata {
    symbol: TokenSymbol,
    decimals: u8,
    max_supply: u64,
    token_supply: u64,
}

impl View for TokenMetadata {
    type V = TokenMetadataState;

    closed spec fn view(&self) -> TokenMetadataState {
        TokenMetadataState {
            symbol: self.symbol@,
            decimals: self.decimals,
            max_supply: self.max_supply,
            token_supply: self.token_supply,
        }
    }
}

impl TokenMetadata {
    /// The numbers are in range.
    #[verifier::type_invariant]
    pub closed spec fn well_formed(self) -> bool {
        metadata_fault(self.decimals, self.max_supply, self.token_supply) is None
    }

    /// Creates the metadata of a token.
    ///
    /// # Errors
    ///
    /// Returns an error if there are too many decimals, if the largest supply is too large for a
    /// fungible asset, or if the supply exceeds the largest supply.
    pub fn with_supply(
        symbol: TokenSymbol,
        decimals: u8,
        max_supply: Felt,
        token_supply: Felt,
    ) -> (r: Result<TokenMetadata, FungibleFaucetError>)
        ensures
            match metadata_fault(decimals, max_supply@, token_supply@) {
                None => r matches Ok(metadata) && metadata@ == (TokenMetadataState {
                    symbol: symbol@,
                    decimals,
                    max_supply: max_supply@,
                    token_supply: token_supply@,
                }),
                Some(err) => r == Err::<TokenMetadata, _>(err),
            },
            r is Ok <==> decimals <= 12 && max_supply@ <= MAX_AMOUNT && token_supply@
                <= max_supply@,
    {
        let max: u64 = max_supply.as_canonical_u64();
        let supply: u64 = token_supply.as_canonical_u64();
        if decimals > MAX_DECIMALS {
            return Err(
                FungibleFaucetError::TooManyDecimals { actual: decimals as u64, max: MAX_DECIMALS },
            );
        }
        if max > MAX_AMOUNT {
            return Err(FungibleFaucetError::MaxSupplyTooLarge { actual: max, max: MAX_AMOUNT });
        }
        if supply > max {
            return Err(
                FungibleFaucetError::TokenSupplyExceedsMaxSupply {
                    token_supply: supply,
                    max_supply: max,
                },
            );
        }
        Ok(TokenMetadata { symbol, decimals, max_supply: max, token_supply: supply })
    }

    /// Returns the metadata with another supply.
    ///
    /// # Errors
    ///
    /// Returns an error if the supply exceeds the largest supply.
    pub fn with_token_supply(self, token_supply: Felt) -> (r: Result<
        TokenMetadata,
        FungibleFaucetError,
    >)
        ensures
            match supply_fault(self@.max_supply, token_supply@) {
                None => r matches Ok(metadata) && metadata@ == (TokenMetadataState {
                    token_supply: token_supply@,
                    ..self@
                }),
                Some(err) => r == Err::<TokenMetadata, _>(err),
            },
            r is Ok <==> token_supply@ <= self@.max_supply,
    {
        proof {
            use_type_invariant(&self);
        }
        let supply: u64 = token_supply.as_canonical_u64();
        if supply > self.max_supply {
            return Err(
                FungibleFaucetError::TokenSupplyExceedsMaxSupply {
                    token_supply: supply,
                    max_supply: self.max_supply,
                },
            );
        }
        Ok(
            TokenMetadata {
                symbol: self.symbol,
                decimals: self.decimals,
                max_supply: self.max_supply,
                token_supply: supply,
            },
        )
    }

    /// Decodes the metadata of a token from its word.
    ///
    /// # Errors
    ///
    /// Returns an error if the word holds no metadata.
    pub fn try_from_word(word: Word) -> (r: Result<TokenMetadata, FungibleFaucetError>)
        ensures
            match r {
                Ok(metadata) => decoded_metadata(word@) == Ok::<_, FungibleFaucetError>(metadata@),
                Err(err) => decoded_metadata(word@) == Err::<TokenMetadataState, _>(err),
            },
    {
        let symbol = match TokenSymbol::try_from_felt(word.element(3)) {
            Ok(symbol) => symbol,
            Err(err) => {
                return Err(FungibleFaucetError::InvalidTokenSymbol(err));
            },
        };
        let decimals: u64 = word.element(2).as_canonical_u64();
        if decimals > 0xff {
            return Err(
                FungibleFaucetError::TooManyDecimals { actual: decimals, max: MAX_DECIMALS },
            );
        }
        TokenMetadata::with_supply(symbol, decimals as u8, word.element(1), word.element(0))
    }

    /// Returns the symbol of the token.
    pub fn symbol(&self) -> (r: TokenSymbol)
        ensures
            r@ == self@.symbol,
    {
        self.symbol
    }

    /// Returns the number of decimals of the token.
    pub fn decimals(&self) -> (r: u8)
        ensures
            r == self@.decimals,
    {
        self.decimals
    }

    /// Returns the largest supply of the token.
    pub fn max_supply(&self) -> (r: u64)
        ensures
            r == self@.max_supply,
    {
        self.max_supply
    }

    /// Returns the supply of the token.
    pub fn token_supply(&self) -> (r: u64)
        ensures
            r == self@.token_supply,
    {
        self.token_supply
    }

    /// Returns the word of the metadata.
    pub fn to_word(&self) -> (r: Word)
        ensures
            r@ == metadata_word(self@),
            valid_metadata(self@),
    {
        proof {
            use_type_invariant(self);
        }
        Word::new(
            Felt::new(self.token_supply),
            Felt::new(self.max_supply),
            Felt::new(self.decimals as u64),
            self.symbol.as_felt(),
        )
    }
}

// OWNERSHIP
// ================================================================================================

/// The ways in which a word can fail to hold the owners of an account.
#[derive(Clone, Copy, Debug, PartialEq, Eq, Structural)]
pub enum Ownable2StepError {
    /// The account has no slot for its owners.
    StorageLookupFailed,
    /// The owner is no account.
    InvalidOwnerId(AccountIdError),
    /// The nominated owner is no account.
    InvalidNominatedOwnerId(AccountIdError),
}

/// The account ID of two elements, where zeros mean that there is none.
pub open spec fn optional_id(suffix: u64, prefix: u64) -> Result<
    Option<RawAccountId>,
    AccountIdError,
> {
    if suffix == 0 && prefix == 0 {
        Ok(None)
    } else {
        match account_id_fault(prefix, suffix) {
            None => Ok(Some((prefix, suffix))),
            Some(err) => Err(err),
        }
    }
}

/// The owner and the nominated owner that a word holds, or what is wrong with it: `[owner_suffix,
/// owner_prefix, nominated_owner_suffix, nominated_owner_prefix]`.
pub open spec fn decoded_owners(word: RawWord) -> Result<
    (Option<RawAccountId>, Option<RawAccountId>),
    Ownable2StepError,
> {
    match optional_id(word.0, word.1) {
        Err(err) => Err(Ownable2StepError::InvalidOwnerId(err)),
        Ok(owner) => match optional_id(word.2, word.3) {
            Err(err) => Err(Ownable2StepError::InvalidNominatedOwnerId(err)),
            Ok(nominated) => Ok((owner, nominated)),
        },
    }
}

/// The value of an optional account ID.
pub open spec fn optional_value(id: Option<AccountId>) -> Option<RawAccountId> {
    match id {
        Some(id) => Some(id@),
        None => None,
    }
}

/// The owner of an account, and the account that was nominated to become its owner.
#[derive(Clone, Copy, Debug)]
pub struct Ownable2Step {
    pub owner: Option<AccountId>,
    pub nominated_owner: Option<AccountId>,
}

impl Ownable2Step {
    /// Decodes the owners from their word.
    ///
    /// # Errors
    ///
    /// Returns an error if the word holds something else than account IDs and zeros.
    pub fn try_from_word(word: Word) -> (r: Result<Ownable2Step, Ownable2StepError>)
        ensures
            match r {
                Ok(owners) => decoded_owners(word@) == Ok::<_, Ownable2StepError>(
                    (optional_value(owners.owner), optional_value(owners.nominated_owner)),
                ),
                Err(err) => decoded_owners(word@) == Err::<
                    (Option<RawAccountId>, Option<RawAccountId>),
                    _,
                >(err),
            },
    {
        let owner = match Ownable2Step::read_id(word.element(0), word.element(1)) {
            Ok(owner) => owner,
            Err(err) => {
                return Err(Ownable2StepError::InvalidOwnerId(err));
            },
        };
        let nominated_owner = match Ownable2Step::read_id(word.element(2), word.element(3)) {
            Ok(owner) => owner,
            Err(err) => {
                return Err(Ownable2StepError::InvalidNominatedOwnerId(err));
            },
        };
        Ok(Ownable2Step { owner, nominated_owner })
    }

    /// Reads an account ID from two elements, where zeros mean that there is none.
    fn read_id(suffix: Felt, prefix: Felt) -> (r: Result<Option<AccountId>, AccountIdError>)
        ensures
            match r {
                Ok(id) => optional_id(suffix@, prefix@) == Ok::<_, AccountIdError>(
                    optional_value(id),
                ),
                Err(err) => optional_id(suffix@, prefix@) == Err::<Option<RawAccountId>, _>(err),
            },
    {
        if suffix.as_canonical_u64() == 0 && prefix.as_canonical_u64() == 0 {
            return Ok(None);
        }
        match AccountId::try_from_elements(suffix, prefix) {
            Ok(id) => Ok(Some(id)),
            Err(err) => Err(err),
        }
    }
}

// ACCOUNTS
// ================================================================================================

/// A named slot of the storage of an account.
#[derive(Debug)]
pub struct StorageSlot {
    pub name: String,
    pub value: Word,
}

impl View for StorageSlot {
    type V = (Seq<char>, RawWord);

    open spec fn view(&self) -> (Seq<char>, RawWord) {
        (self.name@, self.value@)
    }
}

/// The values of a list of slots.
pub open spec fn slot_values(slots: Seq<StorageSlot>) -> Seq<(Seq<char>, RawWord)> {
    Seq::new(slots.len(), |i: int| slots[i]@)
}

/// There is a slot with the given name.
pub open spec fn has_slot(slots: Seq<(Seq<char>, RawWord)>, name: Seq<char>) -> bool {
    exists|i: int| 0 <= i < slots.len() && (#[trigger] slots[i]).0 == name
}

/// The value of the first slot with the given name, if there is one.
pub open spec fn slot_value(slots: Seq<(Seq<char>, RawWord)>, name: Seq<char>) -> Option<RawWord>
    decreases slots.len(),
{
    if slots.len() == 0 {
        None
    } else if slots[0].0 == name {
        Some(slots[0].1)
    } else {
        slot_value(slots.drop_first(), name)
    }
}

/// There is a value for a name if and only if there is a slot with that name.
proof fn lemma_slot_value(slots: Seq<(Seq<char>, RawWord)>, name: Seq<char>)
    ensures
        slot_value(slots, name) is Some <==> has_slot(slots, name),
    decreases slots.len(),
{
    if slots.len() > 0 {
        let rest = slots.drop_first();
        lemma_slot_value(rest, name);
        if has_slot(rest, name) {
            let i = choose|i: int| 0 <= i < rest.len() && (#[trigger] rest[i]).0 == name;
            assert(slots[i + 1].0 == name);
        }
        if has_slot(slots, name) && slots[0].0 != name {
            let i = choose|i: int| 0 <= i < slots.len() && (#[trigger] slots[i]).0 == name;
            assert(rest[i - 1].0 == name);
        }
    }
}

/// An account: its storage, and the commitment to its code.
#[derive(Debug)]
pub struct Account {
    pub slots: Vec<StorageSlot>,
    pub code_commitment: Word,
}

/// The value of an account.
pub struct AccountState {
    pub slots: Seq<(Seq<char>, RawWord)>,
    pub code_commitment: RawWord,
}

impl View for Account {
    type V = AccountState;

    open spec fn view(&self) -> AccountState {
        AccountState { slots: slot_values(self.slots@), code_commitment: self.code_commitment@ }
    }
}

impl Account {
    /// Returns true if there is a slot with the given name.
    pub fn has_slot(&self, name: &String) -> (r: bool)
        ensures
            r == has_slot(self@.slots, name@),
    {
        proof {
            lemma_slot_value(self@.slots, name@);
        }
        self.get_item(name).is_some()
    }

    /// Returns the value of the first slot with the given name, if there is one.
    pub fn get_item(&self, name: &String) -> (r: Option<Word>)
        ensures
            match r {
                Some(value) => slot_value(self@.slots, name@) == Some(value@),
                None => slot_value(self@.slots, name@) is None,
            },
    {
        let ghost values = slot_values(self.slots@);
        let mut i: usize = 0;
        assert(values.skip(0) =~= values);
        while i < self.slots.len()
            invariant
                i <= self.slots.len(),
                values == slot_values(self.slots@),
                slot_value(values, name@) == slot_value(values.skip(i as int), name@),
            decreases self.slots.len() - i,
        {
            assert(values.skip(i as int)[0] == self.slots@[i as int]@);
            assert(values.skip(i as int).drop_first() =~= values.skip(i + 1));
            if self.slots[i].name == *name {
                return Some(self.slots[i].value);
            }
            i += 1;
        }
        None
    }
}

/// A part of an account: what it is, for which types of accounts it is meant, and the slots that it
/// brings.
#[derive(Debug)]
pub struct AccountComponent {
    pub name: String,
    pub description: String,
    pub supported_types: Vec<AccountType>,
    pub storage_slots: Vec<StorageSlot>,
}

// FAUCET
// ================================================================================================

/// The names of the storage slots of a faucet account, and the commitment to its code.
#[derive(Debug)]
pub struct FaucetInterface {
    /// The slot of the metadata of the token.
    pub metadata_slot: String,
    /// The slot of the owners of the account.
    pub owner_config_slot: String,
    /// The slot of the active mint policy.
    pub active_policy_proc_root_slot: String,
    /// The slot of the allowed mint policies.
    pub allowed_policy_proc_roots_slot: String,
    /// The slot of the authority over mint policies.
    pub policy_authority_slot: String,
    /// The commitment to the code.
    pub code_commitment: Word,
}

impl FaucetInterface {
    /// The names of all slots in order.
    pub open spec fn names(&self) -> Seq<Seq<char>> {
        seq![
            self.metadata_slot@,
            self.owner_config_slot@,
            self.active_policy_proc_root_slot@,
            self.allowed_policy_proc_roots_slot@,
            self.policy_authority_slot@,
        ]
    }

    /// The account has all slots of a faucet account.
    pub open spec fn slots_present(&self, account: AccountState) -> bool {
        forall|i: int|
            0 <= i < self.names().len() ==> has_slot(account.slots, #[trigger] self.names()[i])
    }

    /// What is wrong with an account as a faucet account, if anything.
    pub open spec fn account_fault(&self, account: AccountState) -> Option<AgglayerFaucetError> {
        if !self.slots_present(account) {
            Some(AgglayerFaucetError::StorageSlotsMismatch)
        } else if self.code_commitment@ != account.code_commitment {
            Some(AgglayerFaucetError::CodeCommitmentMismatch)
        } else {
            None
        }
    }
}

/// The ways in which an operation on a faucet account can fail.
#[derive(Clone, Copy, Debug, PartialEq, Eq, Structural)]
pub enum AgglayerFaucetError {
    /// The account does not have the storage slots of a faucet account.
    StorageSlotsMismatch,
    /// The account does not have the procedures of a faucet account.
    CodeCommitmentMismatch,
    /// The metadata of the token is invalid.
    FungibleFaucetError(FungibleFaucetError),
    /// An account ID is invalid.
    AccountIdError(AccountIdError),
    /// The owners are invalid.
    Ownable2StepError(Ownable2StepError),
    /// The account has no owner.
    OwnershipRenounced,
}

/// A component of a faucet account for bridged assets. Its slot holds the metadata of the token.
///
/// The owner of the account, which is the bridge, and the mint policies come with other components.
#[derive(Clone, Copy, Debug)]
pub struct AggLayerFaucet {
    metadata: TokenMetadata,
}

impl View for AggLayerFaucet {
    type V = TokenMetadataState;

    closed spec fn view(&self) -> TokenMetadataState {
        self.metadata@
    }
}

impl AggLayerFaucet {
    // CONSTRUCTORS
    // --------------------------------------------------------------------------------------------

    /// Creates a faucet component.
    ///
    /// # Errors
    ///
    /// Returns an error if there are too many decimals, if the largest supply is too large for a
    /// fungible asset, or if the supply exceeds the largest supply.
    pub fn new(symbol: TokenSymbol, decimals: u8, max_supply: Felt, token_supply: Felt) -> (r:
        Result<AggLayerFaucet, FungibleFaucetError>)
        ensures
            match metadata_fault(decimals, max_supply@, token_supply@) {
                None => r matches Ok(faucet) && faucet@ == (TokenMetadataState {
                    symbol: symbol@,
                    decimals,
                    max_supply: max_supply@,
                    token_supply: token_supply@,
                }),
                Some(err) => r == Err::<AggLayerFaucet, _>(err),
            },
            r is Ok <==> decimals <= 12 && max_supply@ <= MAX_AMOUNT && token_supply@
                <= max_supply@,
    {
        match TokenMetadata::with_supply(symbol, decimals, max_supply, token_supply) {
            Ok(metadata) => Ok(AggLayerFaucet { metadata }),
            Err(err) => Err(err),
        }
    }

    /// Returns the component with another supply.
    ///
    /// # Errors
    ///
    /// Returns an error if the supply exceeds the largest supply.
    pub fn with_token_supply(self, token_supply: Felt) -> (r: Result<
        AggLayerFaucet,
        FungibleFaucetError,
    >)
        ensures
            match supply_fault(self@.max_supply, token_supply@) {
                None => r matches Ok(faucet) && faucet@ == (TokenMetadataState {
                    token_supply: token_supply@,
                    ..self@
                }),
                Some(err) => r == Err::<AggLayerFaucet, _>(err),
            },
            r is Ok <==> token_supply@ <= self@.max_supply,
    {
        match self.metadata.with_token_supply(token_supply) {
            Ok(metadata) => Ok(AggLayerFaucet { metadata }),
            Err(err) => Err(err),
        }
    }

    // PUBLIC ACCESSORS
    // --------------------------------------------------------------------------------------------

    /// Returns the name of the slot of the metadata of the token.
    pub fn metadata_slot(interface: &FaucetInterface) -> (r: &String)
        ensures
            r@ == interface.metadata_slot@,
    {
        &interface.metadata_slot
    }

    /// Returns the name of the slot of the owners of the account.
    pub fn owner_config_slot(interface: &FaucetInterface) -> (r: &String)
        ensures
            r@ == interface.owner_config_slot@,
    {
        &interface.owner_config_slot
    }

    /// Reads the metadata of the token from a faucet account.
    ///
    /// # Errors
    ///
    /// Returns an error if the account is not a faucet account, or if the metadata is invalid.
    pub fn metadata(interface: &FaucetInterface, faucet_account: &Account) -> (r: Result<
        TokenMetadata,
        AgglayerFaucetError,
    >)
        ensures
            match interface.account_fault(faucet_account@) {
                Some(err) => r == Err::<TokenMetadata, _>(err),
                None => slot_value(faucet_account@.slots, interface.metadata_slot@) matches Some(
                    word,
                ) && match decoded_metadata(word) {
                    Ok(metadata) => r matches Ok(m) && m@ == metadata,
                    Err(err) => r == Err::<TokenMetadata, _>(
                        AgglayerFaucetError::FungibleFaucetError(err),
                    ),
                },
            },
    {
        match AggLayerFaucet::assert_faucet_account(interface, faucet_account) {
            Ok(_) => {},
            Err(err) => {
                return Err(err);
            },
        }
        proof {
            assert(has_slot(faucet_account@.slots, interface.names()[0]));
            lemma_slot_value(faucet_account@.slots, interface.metadata_slot@);
        }
        let metadata_word = faucet_account.get_item(&interface.metadata_slot).expect(
            "should be able to read metadata slot",
        );
        match TokenMetadata::try_from_word(metadata_word) {
            Ok(metadata) => Ok(metadata),
            Err(err) => Err(AgglayerFaucetError::FungibleFaucetError(err)),
        }
    }

    /// Reads the owner of a faucet account, which is the bridge.
    ///
    /// # Errors
    ///
    /// Returns an error if the account is not a faucet account, if the owners are invalid, or if
    /// there is no owner.
    pub fn owner_account_id(interface: &FaucetInterface, faucet_account: &Account) -> (r: Result<
        AccountId,
        AgglayerFaucetError,
    >)
        ensures
            match interface.account_fault(faucet_account@) {
                Some(err) => r == Err::<AccountId, _>(err),
                None => slot_value(faucet_account@.slots, interface.owner_config_slot@) matches Some(
                    word,
                ) && match decoded_owners(word) {
                    Ok((Some(owner), _)) => r matches Ok(id) && id@ == owner,
                    Ok((None, _)) => r == Err::<AccountId, _>(
                        AgglayerFaucetError::OwnershipRenounced,
                    ),
                    Err(err) => r == Err::<AccountId, _>(
                        AgglayerFaucetError::Ownable2StepError(err),
                    ),
                },
            },
    {
        match AggLayerFaucet::assert_faucet_account(interface, faucet_account) {
            Ok(_) => {},
            Err(err) => {
                return Err(err);
            },
        }
        proof {
            assert(has_slot(faucet_account@.slots, interface.names()[1]));
            lemma_slot_value(faucet_account@.slots, interface.owner_config_slot@);
        }
        let word = match faucet_account.get_item(&interface.owner_config_slot) {
            Some(word) => word,
            None => {
                return Err(
                    AgglayerFaucetError::Ownable2StepError(Ownable2StepError::StorageLookupFailed),
                );
            },
        };
        match Ownable2Step::try_from_word(word) {
            Ok(ownership) => match ownership.owner {
                Some(owner) => Ok(owner),
                None => Err(AgglayerFaucetError::OwnershipRenounced),
            },
            Err(err) => Err(AgglayerFaucetError::Ownable2StepError(err)),
        }
    }

    // HELPER FUNCTIONS
    // --------------------------------------------------------------------------------------------

    /// Checks that an account is a faucet account.
    ///
    /// # Errors
    ///
    /// Returns an error if the account does not have the slots or the code of a faucet account.
    pub fn assert_faucet_account(interface: &FaucetInterface, account: &Account) -> (r: Result<
        (),
        AgglayerFaucetError,
    >)
        ensures
            match interface.account_fault(account@) {
                None => r is Ok,
                Some(err) => r == Err::<(), _>(err),
            },
    {
        match AggLayerFaucet::assert_storage_slots(interface, account) {
            Ok(_) => AggLayerFaucet::assert_code_commitment(interface, account),
            Err(err) => Err(err),
        }
    }

    /// Checks that an account has all slots of a faucet account.
    ///
    /// # Errors
    ///
    /// Returns an error if a slot is missing.
    fn assert_storage_slots(interface: &FaucetInterface, account: &Account) -> (r: Result<
        (),
        AgglayerFaucetError,
    >)
        ensures
            r == (if interface.slots_present(account@) {
                Ok::<(), AgglayerFaucetError>(())
            } else {
                Err::<(), AgglayerFaucetError>(AgglayerFaucetError::StorageSlotsMismatch)
            }),
    {
        let names = AggLayerFaucet::slot_names(interface);
        let mut i: usize = 0;
        while i < names.len()
            invariant
                i <= names.len(),
                names@.len() == interface.names().len(),
                forall|j: int| 0 <= j < names@.len() ==> (#[trigger] names@[j])@ == interface.names()[j],
                forall|j: int|
                    0 <= j < i ==> has_slot(account@.slots, #[trigger] interface.names()[j]),
            decreases names.len() - i,
        {
            if !account.has_slot(names[i]) {
                assert(!has_slot(account@.slots, interface.names()[i as int]));
                return Err(AgglayerFaucetError::StorageSlotsMismatch);
            }
            i += 1;
        }
        Ok(())
    }

    /// Checks that the code of an account is that of a faucet account.
    ///
    /// # Errors
    ///
    /// Returns an error if the commitments to the code differ.
    fn assert_code_commitment(interface: &FaucetInterface, account: &Account) -> (r: Result<
        (),
        AgglayerFaucetError,
    >)
        ensures
            r == (if interface.code_commitment@ == account@.code_commitment {
                Ok::<(), AgglayerFaucetError>(())
            } else {
                Err::<(), AgglayerFaucetError>(AgglayerFaucetError::CodeCommitmentMismatch)
            }),
    {
        if interface.code_commitment != account.code_commitment {
            return Err(AgglayerFaucetError::CodeCommitmentMismatch);
        }
        Ok(())
    }

    /// Returns the names of all slots of a faucet account.
    fn slot_names(interface: &FaucetInterface) -> (r: Vec<&String>)
        ensures
            r@.len() == interface.names().len(),
            forall|i: int| 0 <= i < r@.len() ==> (#[trigger] r@[i])@ == interface.names()[i],
    {
        let mut names: Vec<&String> = Vec::new();
        names.push(&interface.metadata_slot);
        names.push(&interface.owner_config_slot);
        names.push(&interface.active_policy_proc_root_slot);
        names.push(&interface.allowed_policy_proc_roots_slot);
        names.push(&interface.policy_authority_slot);
        names
    }

    /// Converts the faucet into an account component whose only slot holds the metadata.
    pub fn into_component(self, interface: &FaucetInterface) -> (r: AccountComponent)
        ensures
            slot_values(r.storage_slots@) == seq![
                (interface.metadata_slot@, metadata_word(self@)),
            ],
            is_faucet_component(r),
    {
        let mut slots: Vec<StorageSlot> = Vec::new();
        slots.push(
            StorageSlot { name: interface.metadata_slot.clone(), value: self.metadata.to_word() },
        );
        assert(slot_values(slots@) =~= seq![(interface.metadata_slot@, metadata_word(self@))]);
        agglayer_faucet_component(slots)
    }
}

/// The component has the name and the description of a faucet component, and is meant for fungible
/// faucets.
pub open spec fn is_faucet_component(component: AccountComponent) -> bool {
    &&& component.name@ == "agglayer::faucet"@
    &&& component.description@ == "AggLayer faucet component"@
    &&& component.supported_types@ == seq![AccountType::FungibleFaucet]
}

/// Creates a faucet component with the given slots.
pub fn agglayer_faucet_component(storage_slots: Vec<StorageSlot>) -> (r: AccountComponent)
    ensures
        r.storage_slots == storage_slots,
        is_faucet_component(r),
{
    let mut supported_types: Vec<AccountType> = Vec::new();
    supported_types.push(AccountType::FungibleFaucet);
    AccountComponent {
        name: "agglayer::faucet".to_owned(),
        description: "AggLayer faucet component".to_owned(),
        supported_types,
        storage_slots,
    }
}

/// The metadata of a faucet is read back from every account whose storage starts with the slot of
/// the component of the faucet.
pub proof fn law_metadata_of_component(
    interface: FaucetInterface,
    metadata: TokenMetadataState,
    others: Seq<(Seq<char>, RawWord)>,
)
    requires
        valid_metadata(metadata),
    ensures
        slot_value(
            seq![(interface.metadata_slot@, metadata_word(metadata))] + others,
            interface.metadata_slot@,
        ) matches Some(word) && decoded_metadata(word) == Ok::<_, FungibleFaucetError>(metadata),
{
    law_metadata_round_trip(metadata);
}

} // verus!
