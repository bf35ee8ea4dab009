//! The NEAR action algebra, the narrowing that forbids nested delegation, and
//! the canonical binary form of actions with its reader.

use vstd::prelude::*;
use crate::binary::{
    bytes_form, join, length_prefix, option_u128_form, public_key_form, signature_form,
    string_form, strings_form, u128_form, u64_form, write_bytes, write_length, write_option_u128,
    write_public_key, write_signature, write_string, write_strings, write_u128, write_u64,
    EncodeError, holds_at, read_as, account_form, lemma_holds_join, lemma_read_join, lemma_int_form_lengths,
    read_u8, read_u64, read_u128, read_bytes, read_string, read_strings, read_length,
    read_option_u128, read_public_key, read_signature, ReadError,
};
use crate::near_types::{AccountId, Base64VecU8, BlockHash, PublicKey, Signature, U128, U64};

verus! {

/// One action of a transaction: exactly one of eleven kinds.
#[derive(Debug, PartialEq, Eq)]
pub enum Action {
    /// Creates the transaction's receiver as a new (sub)account.
    CreateAccount(CreateAccountAction),
    /// Sets the Wasm code of the receiver.
    DeployContract(DeployContractAction),
    FunctionCall(Box<FunctionCallAction>),
    Transfer(TransferAction),
    Stake(Box<StakeAction>),
    AddKey(Box<AddKeyAction>),
    DeleteKey(Box<DeleteKeyAction>),
    DeleteAccount(DeleteAccountAction),
    Delegate(Box<SignedDelegateAction>),
    DeployGlobalContract(DeployGlobalContractAction),
    UseGlobalContract(Box<UseGlobalContractAction>),
}

/// Deploys code that other accounts can then use.
#[derive(Debug, Clone, PartialEq, Eq)]
pub struct DeployGlobalContractAction {
    pub code: Base64VecU8,
    pub deploy_mode: GlobalContractDeployMode,
}

/// Uses code that was deployed as a global contract.
#[derive(Debug, Clone, PartialEq, Eq)]
pub struct UseGlobalContractAction {
    pub contract_identifier: GlobalContractIdentifier,
}

/// How a global contract is addressed once deployed.
#[derive(Debug, Clone, Copy, PartialEq, Eq, Structural)]
pub enum GlobalContractDeployMode {
    /// Under the hash of its code, which makes it immutable.
    CodeHash,
    /// Under the deploying account, whose owner may update it for all users.
    AccountId,
}

/// A reference to a global contract.
#[derive(Debug, Clone, PartialEq, Eq)]
pub enum GlobalContractIdentifier {
    CodeHash(BlockHash),
    AccountId(AccountId),
}

#[derive(Debug, Clone, Copy, PartialEq, Eq, Structural)]
pub struct CreateAccountAction {}

#[derive(Debug, Clone, PartialEq, Eq)]
pub struct DeployContractAction {
    pub code: Base64VecU8,
}

#[derive(Debug, Clone, PartialEq, Eq)]
pub struct FunctionCallAction {
    pub method_name: String,
    pub args: Vec<u8>,
    pub gas: U64,
    pub deposit: U128,
}

#[derive(Debug, Clone, Copy, PartialEq, Eq, Structural)]
pub struct TransferAction {
    pub deposit: U128,
}

#[derive(Debug, Clone, Copy, PartialEq, Eq)]
pub struct StakeAction {
    /// Amount of tokens to stake.
    pub stake: U128,
    /// The validator key that signs on behalf of the staking account.
    pub public_key: PublicKey,
}

#[derive(Debug, Clone, PartialEq, Eq)]
pub struct AddKeyAction {
    /// The key that the access key is attached to.
    pub public_key: PublicKey,
    /// The access key with its permission.
    pub access_key: AccessKey,
}

#[derive(Debug, Clone, PartialEq, Eq)]
pub struct AccessKey {
    /// Nonce of the key, used to produce transaction nonces.
    pub nonce: U64,
    /// What the key may do.
    pub permission: AccessKeyPermission,
}

#[derive(Debug, Clone, PartialEq, Eq)]
pub enum AccessKeyPermission {
    FunctionCall(FunctionCallPermission),
    /// Grants full access to the account.
    FullAccess,
}

#[derive(Debug, Clone, PartialEq, Eq)]
pub struct FunctionCallPermission {
    pub allowance: Option<U128>,
    pub receiver_id: String,
    pub method_names: Vec<String>,
}

#[derive(Debug, Clone, Copy, PartialEq, Eq)]
pub struct DeleteKeyAction {
    /// The key whose access key is removed.
    pub public_key: PublicKey,
}

#[derive(Debug, Clone, PartialEq, Eq)]
pub struct DeleteAccountAction {
    pub beneficiary_id: AccountId,
}

/// The binary tag of each kind of action: its place in the declared order.
pub open spec fn spec_discriminant(a: Action) -> u8 {
    match a {
        Action::CreateAccount(_) => 0,
        Action::DeployContract(_) => 1,
        Action::FunctionCall(_) => 2,
        Action::Transfer(_) => 3,
        Action::Stake(_) => 4,
        Action::AddKey(_) => 5,
        Action::DeleteKey(_) => 6,
        Action::DeleteAccount(_) => 7,
        Action::Delegate(_) => 8,
        Action::DeployGlobalContract(_) => 9,
        Action::UseGlobalContract(_) => 10,
    }
}

impl Action {
    /// The binary tag of this action's kind.
    pub fn discriminant(&self) -> (r: u8)
        ensures
            r == spec_discriminant(*self),
    {
        match self {
            Action::CreateAccount(_) => 0,
            Action::DeployContract(_) => 1,
            Action::FunctionCall(_) => 2,
            Action::Transfer(_) => 3,
            Action::Stake(_) => 4,
            Action::AddKey(_) => 5,
            Action::DeleteKey(_) => 6,
            Action::DeleteAccount(_) => 7,
            Action::Delegate(_) => 8,
            Action::DeployGlobalContract(_) => 9,
            Action::UseGlobalContract(_) => 10,
        }
    }
}

/// An action of any kind but `Delegate`, so that a delegated action cannot
/// itself delegate.
#[derive(Debug, PartialEq, Eq)]
pub struct NonDelegateAction(Action);

impl NonDelegateAction {
    #[verifier::type_invariant]
    spec fn wf(self) -> bool {
        !(self.0 is Delegate)
    }

    /// The wrapped action.
    pub closed spec fn spec_action(self) -> Action {
        self.0
    }

    /// Wraps an action; fails exactly when it is a `Delegate` action.
    pub fn try_from(action: Action) -> (r: Result<NonDelegateAction, ()>)
        ensures
            action is Delegate ==> r is Err,
            !(action is Delegate) ==> (r matches Ok(n) && n.spec_action() == action),
    {
        if let Action::Delegate(_) = action {
            return Err(());
        }
        Ok(NonDelegateAction(action))
    }

    /// The wrapped action, which is never a `Delegate` action.
    pub fn action(&self) -> (r: &Action)
        ensures
            r == self.spec_action(),
            !(r is Delegate),
    {
        proof {
            use_type_invariant(self);
        }
        &self.0
    }

    /// Unwraps the action.
    pub fn into_action(self) -> (r: Action)
        ensures
            r == self.spec_action(),
            !(r is Delegate),
    {
        proof {
            use_type_invariant(&self);
        }
        self.0
    }
}

/// Actions that a relayer submits on behalf of `sender_id`.
#[derive(Debug, PartialEq, Eq)]
pub struct DelegateAction {
    /// The account on whose behalf the actions run.
    pub sender_id: AccountId,
    /// The account that receives the actions.
    pub receiver_id: AccountId,
    /// The actions, none of which delegates again.
    pub actions: Vec<NonDelegateAction>,
    /// Protects against replay.
    pub nonce: U64,
    /// The block height after which the delegation expires.
    pub max_block_height: U64,
    /// The key that signs the delegation.
    pub public_key: PublicKey,
}

/// A delegate action with the signature that an outside signer produced.
#[derive(Debug, PartialEq, Eq)]
pub struct SignedDelegateAction {
    pub delegate_action: DelegateAction,
    pub signature: Signature,
}


/// The binary form of an access key permission.
pub open spec fn permission_form(p: AccessKeyPermission) -> Option<Seq<u8>> {
    match p {
        AccessKeyPermission::FunctionCall(f) => join(
            join(
                Some(seq![0u8] + option_u128_form(
                    match f.allowance {
                        Some(a) => Some(a.0),
                        None => None,
                    },
                )),
                string_form(f.receiver_id@),
            ),
            strings_form(f.method_names@),
        ),
        AccessKeyPermission::FullAccess => Some(seq![1u8]),
    }
}

/// The binary form of an access key: its nonce, then its permission.
pub open spec fn access_key_form(k: AccessKey) -> Option<Seq<u8>> {
    join(Some(u64_form(k.nonce.0)), permission_form(k.permission))
}

/// The binary form of a global contract reference.
pub open spec fn identifier_form(i: GlobalContractIdentifier) -> Option<Seq<u8>> {
    match i {
        GlobalContractIdentifier::CodeHash(h) => Some(seq![0u8] + h.0@),
        GlobalContractIdentifier::AccountId(a) => join(Some(seq![1u8]), account_form(a)),
    }
}

/// The binary form of a deploy mode: its place in the declared order.
pub open spec fn deploy_mode_form(m: GlobalContractDeployMode) -> Seq<u8> {
    match m {
        GlobalContractDeployMode::CodeHash => seq![0u8],
        GlobalContractDeployMode::AccountId => seq![1u8],
    }
}

/// The canonical binary form of an action: the tag of its kind, then the
/// fields of its payload in declared order. `None` when a length does not
/// fit in its four-byte prefix.
pub open spec fn action_form(a: Action) -> Option<Seq<u8>>
    decreases a, 1nat,
{
    join(Some(seq![spec_discriminant(a)]), payload_form(a))
}

/// The fields of an action's payload, in declared order.
pub open spec fn payload_form(a: Action) -> Option<Seq<u8>>
    decreases a, 0nat,
{
        match a {
            Action::CreateAccount(_) => Some(seq![]),
            Action::DeployContract(d) => bytes_form(d.code.0@),
            Action::FunctionCall(f) => join(
                join(string_form(f.method_name@), bytes_form(f.args@)),
                Some(u64_form(f.gas.0) + u128_form(f.deposit.0)),
            ),
            Action::Transfer(t) => Some(u128_form(t.deposit.0)),
            Action::Stake(s) => Some(u128_form(s.stake.0) + public_key_form(s.public_key)),
            Action::AddKey(k) => join(Some(public_key_form(k.public_key)), access_key_form(k.access_key)),
            Action::DeleteKey(k) => Some(public_key_form(k.public_key)),
            Action::DeleteAccount(d) => account_form(d.beneficiary_id),
            Action::Delegate(sd) => join(
                join(
                    join(
                        account_form(sd.delegate_action.sender_id),
                        account_form(sd.delegate_action.receiver_id),
                    ),
                    join(
                        length_prefix(sd.delegate_action.actions@.len()),
                        actions_concat(sd.delegate_action.actions@),
                    ),
                ),
                Some(
                    delegate_tail_form(
                        sd.delegate_action.nonce.0,
                        sd.delegate_action.max_block_height.0,
                        sd.delegate_action.public_key,
                        sd.signature,
                    ),
                ),
            ),
            Action::DeployGlobalContract(g) => join(
                bytes_form(g.code.0@),
                Some(deploy_mode_form(g.deploy_mode)),
            ),
            Action::UseGlobalContract(u) => identifier_form(u.contract_identifier),
        }
}

/// The fixed-size fields that end a signed delegate action.
pub open spec fn delegate_tail_form(nonce: u64, max_block_height: u64, k: PublicKey, s: Signature) -> Seq<u8> {
    u64_form(nonce) + (u64_form(max_block_height) + (public_key_form(k) + signature_form(s)))
}

/// The binary forms of a list of wrapped actions, one after the other.
pub open spec fn actions_concat(v: Seq<NonDelegateAction>) -> Option<Seq<u8>>
    decreases v, 2nat,
{
    if v.len() == 0 {
        Some(seq![])
    } else {
        join(actions_concat(v.drop_last()), item_form(v.last()))
    }
}

/// The binary form of a wrapped action: that of the action it wraps.
pub closed spec fn item_form(n: NonDelegateAction) -> Option<Seq<u8>>
    decreases n, 3nat,
{
    if n.0 is Delegate {
        None
    } else {
        action_form(n.0)
    }
}


/// Once a prefix of the list cannot be written, the whole list cannot.
proof fn lemma_actions_concat_none(v: Seq<NonDelegateAction>, i: int)
    requires
        0 <= i <= v.len(),
        actions_concat(v.take(i)) is None,
    ensures
        actions_concat(v) is None,
    decreases v.len() - i,
{
    if i < v.len() {
        assert(v.take(i + 1).drop_last() == v.take(i));
        lemma_actions_concat_none(v, i + 1);
    } else {
        assert(v.take(i) == v);
    }
}

/// Appends the binary form of an access key permission.
fn write_permission(out: &mut Vec<u8>, p: &AccessKeyPermission) -> (r: Result<(), EncodeError>)
    ensures
        r is Ok <==> permission_form(*p) is Some,
        r is Ok ==> final(out)@ == old(out)@ + permission_form(*p)->0,
{
    match p {
        AccessKeyPermission::FunctionCall(f) => {
            out.push(0u8);
            let allowance: Option<u128> = match f.allowance {
                Some(a) => Some(a.0),
                None => None,
            };
            write_option_u128(out, allowance);
            write_string(out, f.receiver_id.as_str())?;
            write_strings(out, &f.method_names)?;
            assert(out@ == old(out)@ + permission_form(*p)->0);
            Ok(())
        },
        AccessKeyPermission::FullAccess => {
            out.push(1u8);
            assert(out@ == old(out)@ + permission_form(*p)->0);
            Ok(())
        },
    }
}

/// Appends the binary form of a global contract reference.
fn write_identifier(out: &mut Vec<u8>, i: &GlobalContractIdentifier) -> (r: Result<
    (),
    EncodeError,
>)
    ensures
        r is Ok <==> identifier_form(*i) is Some,
        r is Ok ==> final(out)@ == old(out)@ + identifier_form(*i)->0,
{
    match i {
        GlobalContractIdentifier::CodeHash(h) => {
            out.push(0u8);
            crate::binary::write_raw(out, h.0.as_slice());
            assert(out@ == old(out)@ + identifier_form(*i)->0);
            Ok(())
        },
        GlobalContractIdentifier::AccountId(a) => {
            out.push(1u8);
            write_string(out, a.as_str())?;
            assert(out@ == old(out)@ + identifier_form(*i)->0);
            Ok(())
        },
    }
}

/// Appends the binary form of each action of the list, after the list's length.
fn write_actions(out: &mut Vec<u8>, v: &Vec<NonDelegateAction>) -> (r: Result<(), EncodeError>)
    ensures
        r is Ok <==> join(length_prefix(v@.len()), actions_concat(v@)) is Some,
        r is Ok ==> final(out)@ == old(out)@ + join(length_prefix(v@.len()), actions_concat(v@))->0,
    decreases v, 0nat,
{
    write_length(out, v.len())?;
    let ghost start = out@;
    let mut i: usize = 0;
    while i < v.len()
        invariant
            i <= v@.len(),
            actions_concat(v@.take(i as int)) is Some,
            out@ == start + actions_concat(v@.take(i as int))->0,
        decreases v@.len() - i,
    {
        assert(v@.take(i + 1).drop_last() == v@.take(i as int));
        proof {
            assert(decreases_to!(v => v[i as int]));
        }
        let item = v[i].action();
        assert(item_form(v@[i as int]) == action_form(*item));
        if write_action(out, item).is_err() {
            proof {
                lemma_actions_concat_none(v@, i as int + 1);
            }
            return Err(EncodeError::LengthOverflow);
        }
        i = i + 1;
    }
    assert(v@.take(v@.len() as int) == v@);
    Ok(())
}

/// Appends the canonical binary form of an action.
pub fn write_action(out: &mut Vec<u8>, a: &Action) -> (r: Result<(), EncodeError>)
    ensures
        r is Ok <==> action_form(*a) is Some,
        r is Ok ==> final(out)@ == old(out)@ + action_form(*a)->0,
    decreases a, 2nat,
{
    out.push(a.discriminant());
    write_payload(out, a)?;
    assert(out@ =~= old(out)@ + action_form(*a)->0);
    Ok(())
}

/// Appends the payload of an action, without its tag.
fn write_payload(out: &mut Vec<u8>, a: &Action) -> (r: Result<(), EncodeError>)
    ensures
        r is Ok <==> payload_form(*a) is Some,
        r is Ok ==> final(out)@ == old(out)@ + payload_form(*a)->0,
    decreases a, 1nat,
{
    match a {
        Action::CreateAccount(_) => {
            assert(out@ =~= old(out)@ + payload_form(*a)->0);
        },
        Action::DeployContract(d) => {
            write_bytes(out, d.code.0.as_slice())?;
        },
        Action::FunctionCall(f) => {
            write_string(out, f.method_name.as_str())?;
            write_bytes(out, f.args.as_slice())?;
            write_u64(out, f.gas.0);
            write_u128(out, f.deposit.0);
            assert(out@ =~= old(out)@ + payload_form(*a)->0);
        },
        Action::Transfer(t) => {
            write_u128(out, t.deposit.0);
        },
        Action::Stake(s) => {
            write_u128(out, s.stake.0);
            write_public_key(out, &s.public_key);
            assert(out@ =~= old(out)@ + payload_form(*a)->0);
        },
        Action::AddKey(k) => {
            write_public_key(out, &k.public_key);
            write_u64(out, k.access_key.nonce.0);
            write_permission(out, &k.access_key.permission)?;
            assert(out@ =~= old(out)@ + payload_form(*a)->0);
        },
        Action::DeleteKey(k) => {
            write_public_key(out, &k.public_key);
        },
        Action::DeleteAccount(d) => {
            write_string(out, d.beneficiary_id.as_str())?;
        },
        Action::Delegate(sd) => {
            write_signed_delegate(out, sd)?;
        },
        Action::DeployGlobalContract(g) => {
            write_bytes(out, g.code.0.as_slice())?;
            match g.deploy_mode {
                GlobalContractDeployMode::CodeHash => out.push(0u8),
                GlobalContractDeployMode::AccountId => out.push(1u8),
            }
            assert(out@ =~= old(out)@ + payload_form(*a)->0);
        },
        Action::UseGlobalContract(u) => {
            write_identifier(out, &u.contract_identifier)?;
        },
    }
    Ok(())
}

/// Appends the payload of a `Delegate` action.
fn write_signed_delegate(out: &mut Vec<u8>, sd: &Box<SignedDelegateAction>) -> (r: Result<
    (),
    EncodeError,
>)
    ensures
        r is Ok <==> payload_form(Action::Delegate(*sd)) is Some,
        r is Ok ==> final(out)@ == old(out)@ + payload_form(Action::Delegate(*sd))->0,
    decreases sd, 0nat,
{
    let ghost a = Action::Delegate(*sd);
    proof {
        assert(decreases_to!(a => sd.delegate_action.actions));
    }
    let d = &sd.delegate_action;
    write_string(out, d.sender_id.as_str())?;
    write_string(out, d.receiver_id.as_str())?;
    write_actions(out, &d.actions)?;
    let ghost mid = out@;
    write_u64(out, d.nonce.0);
    write_u64(out, d.max_block_height.0);
    write_public_key(out, &d.public_key);
    write_signature(out, &sd.signature);
    assert(out@ =~= mid + delegate_tail_form(d.nonce.0, d.max_block_height.0, d.public_key, sd.signature));
    assert(out@ =~= old(out)@ + payload_form(a)->0);
    Ok(())
}

impl Action {
    /// The canonical binary form of this action, or an error when a list,
    /// string or byte string in it is too long for its length prefix.
    pub fn to_borsh(&self) -> (r: Result<Vec<u8>, EncodeError>)
        ensures
            r is Ok <==> action_form(*self) is Some,
            r matches Ok(v) ==> v@ == action_form(*self)->0,
    {
        let mut out: Vec<u8> = Vec::new();
        write_action(&mut out, self)?;
        assert(out@ == action_form(*self)->0);
        Ok(out)
    }
}


/// Reads an access key permission. `w` is a permission whose form, when
/// the input holds it at `pos`, must then be read.
fn read_permission(b: &[u8], pos: usize, Ghost(w): Ghost<AccessKeyPermission>) -> (r: Result<
    (AccessKeyPermission, usize),
    ReadError,
>)
    ensures
        r matches Ok((x, e)) ==> read_as(b@, pos as int, e as int, permission_form(x)),
        holds_at(b@, pos as int, permission_form(w)) ==> (r matches Ok((x, e)) && e == pos
            + permission_form(w)->0.len()),
{
    let ghost complete = holds_at(b@, pos as int, permission_form(w));
    let ghost (wa, wr, wm) = match w {
        AccessKeyPermission::FunctionCall(f) => (
            match f.allowance {
                Some(a) => Some(a.0),
                None => None,
            },
            f.receiver_id@,
            f.method_names@,
        ),
        AccessKeyPermission::FullAccess => (None, seq![], seq![]),
    };
    proof {
        if complete {
            assert(b@.subrange(pos as int, pos + permission_form(w)->0.len())[0] == b@[pos as int]);
            if w is FunctionCall {
                lemma_holds_join(
                    b@,
                    pos as int,
                    join(Some(seq![0u8] + option_u128_form(wa)), string_form(wr)),
                    strings_form(wm),
                );
                lemma_holds_join(
                    b@,
                    pos as int,
                    Some(seq![0u8] + option_u128_form(wa)),
                    string_form(wr),
                );
                lemma_holds_join(b@, pos as int, Some(seq![0u8]), Some(option_u128_form(wa)));
            }
        }
    }
    let (tag, p) = read_u8(b, pos)?;
    if tag == 0 {
        let (allowance, q) = read_option_u128(b, p, Ghost(wa))?;
        let (receiver_id, t) = read_string(b, q, Ghost(wr))?;
        let (method_names, e) = read_strings(b, t, Ghost(wm))?;
        let f = FunctionCallPermission {
            allowance: match allowance {
                Some(a) => Some(U128(a)),
                None => None,
            },
            receiver_id,
            method_names,
        };
        proof {
            lemma_read_join(b@, pos as int, p as int, q as int, Some(seq![0u8]), Some(option_u128_form(allowance)));
            lemma_read_join(b@, pos as int, q as int, t as int, Some(seq![0u8] + option_u128_form(allowance)), string_form(f.receiver_id@));
            lemma_read_join(b@, pos as int, t as int, e as int, join(Some(seq![0u8] + option_u128_form(allowance)), string_form(f.receiver_id@)), strings_form(f.method_names@));
        }
        Ok((AccessKeyPermission::FunctionCall(f), e))
    } else if tag == 1 {
        Ok((AccessKeyPermission::FullAccess, p))
    } else {
        Err(ReadError::InvalidTag(tag))
    }
}

/// Reads a global contract reference.
fn read_identifier(b: &[u8], pos: usize, Ghost(w): Ghost<GlobalContractIdentifier>) -> (r: Result<
    (GlobalContractIdentifier, usize),
    ReadError,
>)
    ensures
        r matches Ok((x, e)) ==> read_as(b@, pos as int, e as int, identifier_form(x)),
        holds_at(b@, pos as int, identifier_form(w)) ==> (r matches Ok((x, e)) && e == pos
            + identifier_form(w)->0.len()),
{
    let ghost complete = holds_at(b@, pos as int, identifier_form(w));
    let ghost wid = match w {
        GlobalContractIdentifier::AccountId(a) => a,
        GlobalContractIdentifier::CodeHash(_) => vstd::pervasive::arbitrary(),
    };
    let ghost wa = wid@;
    proof {
        if complete {
            assert(b@.subrange(pos as int, pos + identifier_form(w)->0.len())[0] == b@[pos as int]);
            if w is AccountId {
                lemma_holds_join(b@, pos as int, Some(seq![1u8]), account_form(wid));
            }
        }
    }
    let (tag, p) = read_u8(b, pos)?;
    if tag == 0 {
        let (h, e) = crate::binary::read_raw(b, p, 32)?;
        let mut a: [u8; 32] = [0u8; 32];
        let mut i: usize = 0;
        while i < 32
            invariant
                i <= 32,
                h@.len() == 32,
                forall|j: int| 0 <= j < i ==> a@[j] == h@[j],
            decreases 32 - i,
        {
            a[i] = h[i];
            i = i + 1;
        }
        assert(a@ =~= h@);
        proof {
            lemma_read_join(b@, pos as int, p as int, e as int, Some(seq![0u8]), Some(a@));
        }
        Ok((GlobalContractIdentifier::CodeHash(BlockHash(a)), e))
    } else if tag == 1 {
        let (s, e) = read_string(b, p, Ghost(wa))?;
        match AccountId::new(s) {
            Ok(id) => {
                proof {
                    lemma_read_join(b@, pos as int, p as int, e as int, Some(seq![1u8]), account_form(id));
                }
                Ok((GlobalContractIdentifier::AccountId(id), e))
            },
            Err(_) => Err(ReadError::InvalidAccountId),
        }
    } else {
        Err(ReadError::InvalidTag(tag))
    }
}


/// The first byte of an action's binary form is the tag of its kind.
proof fn lemma_action_tag(b: Seq<u8>, pos: int, w: Action)
    requires
        holds_at(b, pos, action_form(w)),
    ensures
        b[pos] == spec_discriminant(w),
        holds_at(b, pos + 1, payload_form(w)),
        action_form(w)->0.len() == 1 + payload_form(w)->0.len(),
{
    lemma_holds_join(b, pos, Some(seq![spec_discriminant(w)]), payload_form(w));
    assert(b.subrange(pos, pos + 1)[0] == b[pos]);
}

/// Reads an account id; fails on a text that is not a valid one.
fn read_account(b: &[u8], pos: usize, Ghost(w): Ghost<AccountId>) -> (r: Result<
    (AccountId, usize),
    ReadError,
>)
    ensures
        r matches Ok((x, e)) ==> read_as(b@, pos as int, e as int, account_form(x)),
        holds_at(b@, pos as int, account_form(w)) ==> (r matches Ok((x, e)) && e == pos
            + account_form(w)->0.len()),
{
    let (s, e) = read_string(b, pos, Ghost(w@))?;
    match AccountId::new(s) {
        Ok(id) => Ok((id, e)),
        Err(_) => Err(ReadError::InvalidAccountId),
    }
}

/// Reads the payload of a `FunctionCall` action.
fn read_function_call(b: &[u8], p: usize, Ghost(w): Ghost<Action>) -> (r: Result<
    (Action, usize),
    ReadError,
>)
    ensures
        r matches Ok((a, e)) ==> spec_discriminant(a) == 2 && read_as(b@, p as int, e as int, payload_form(a)),
        (w is FunctionCall && holds_at(b@, p as int, payload_form(w))) ==> (r matches Ok((a, e))
            && e == p + payload_form(w)->0.len()),
{
    let ghost (wm, wa, wg, wd) = match w {
        Action::FunctionCall(f) => (f.method_name@, f.args@, f.gas.0, f.deposit.0),
        _ => (seq![], seq![], 0u64, 0u128),
    };
    proof {
        lemma_int_form_lengths(wg, wd);
        if w is FunctionCall && holds_at(b@, p as int, payload_form(w)) {
            lemma_holds_join(b@, p as int, join(string_form(wm), bytes_form(wa)), Some(u64_form(wg) + u128_form(wd)));
            lemma_holds_join(b@, p as int, string_form(wm), bytes_form(wa));
        }
    }
    let (method_name, q) = read_string(b, p, Ghost(wm))?;
    let (args, t) = read_bytes(b, q, Ghost(wa))?;
    let (gas, u) = read_u64(b, t)?;
    let (deposit, e) = read_u128(b, u)?;
    let ghost f1 = string_form(method_name@);
    let ghost f2 = bytes_form(args@);
    proof {
        lemma_read_join(b@, p as int, q as int, t as int, f1, f2);
        lemma_read_join(b@, t as int, u as int, e as int, Some(u64_form(gas)), Some(u128_form(deposit)));
        lemma_read_join(b@, p as int, t as int, e as int, join(f1, f2), Some(u64_form(gas) + u128_form(deposit)));
    }
    let f = FunctionCallAction { method_name, args, gas: U64(gas), deposit: U128(deposit) };
    Ok((Action::FunctionCall(Box::new(f)), e))
}

/// Reads the payload of a `Stake` action.
fn read_stake(b: &[u8], p: usize, Ghost(w): Ghost<Action>) -> (r: Result<(Action, usize), ReadError>)
    ensures
        r matches Ok((a, e)) ==> spec_discriminant(a) == 4 && read_as(b@, p as int, e as int, payload_form(a)),
        (w is Stake && holds_at(b@, p as int, payload_form(w))) ==> (r matches Ok((a, e))
            && e == p + payload_form(w)->0.len()),
{
    let ghost (ws, wk) = match w {
        Action::Stake(x) => (x.stake.0, x.public_key),
        _ => (0u128, vstd::pervasive::arbitrary()),
    };
    proof {
        lemma_int_form_lengths(0, ws);
        if w is Stake && holds_at(b@, p as int, payload_form(w)) {
            lemma_holds_join(b@, p as int, Some(u128_form(ws)), Some(public_key_form(wk)));
        }
    }
    let (stake, q) = read_u128(b, p)?;
    let (public_key, e) = read_public_key(b, q, Ghost(wk))?;
    proof {
        lemma_read_join(b@, p as int, q as int, e as int, Some(u128_form(stake)), Some(public_key_form(public_key)));
    }
    Ok((Action::Stake(Box::new(StakeAction { stake: U128(stake), public_key })), e))
}

/// Reads the payload of an `AddKey` action.
fn read_add_key(b: &[u8], p: usize, Ghost(w): Ghost<Action>) -> (r: Result<(Action, usize), ReadError>)
    ensures
        r matches Ok((a, e)) ==> spec_discriminant(a) == 5 && read_as(b@, p as int, e as int, payload_form(a)),
        (w is AddKey && holds_at(b@, p as int, payload_form(w))) ==> (r matches Ok((a, e))
            && e == p + payload_form(w)->0.len()),
{
    let ghost (wk, wn, wp) = match w {
        Action::AddKey(x) => (x.public_key, x.access_key.nonce.0, x.access_key.permission),
        _ => (vstd::pervasive::arbitrary(), 0u64, AccessKeyPermission::FullAccess),
    };
    proof {
        lemma_int_form_lengths(wn, 0);
        if w is AddKey && holds_at(b@, p as int, payload_form(w)) {
            lemma_holds_join(b@, p as int, Some(public_key_form(wk)), join(Some(u64_form(wn)), permission_form(wp)));
            lemma_holds_join(b@, p + public_key_form(wk).len(), Some(u64_form(wn)), permission_form(wp));
        }
    }
    let (public_key, q) = read_public_key(b, p, Ghost(wk))?;
    let (nonce, t) = read_u64(b, q)?;
    let (permission, e) = read_permission(b, t, Ghost(wp))?;
    proof {
        lemma_read_join(b@, q as int, t as int, e as int, Some(u64_form(nonce)), permission_form(permission));
        lemma_read_join(b@, p as int, q as int, e as int, Some(public_key_form(public_key)), join(Some(u64_form(nonce)), permission_form(permission)));
    }
    let access_key = AccessKey { nonce: U64(nonce), permission };
    Ok((Action::AddKey(Box::new(AddKeyAction { public_key, access_key })), e))
}

/// Reads the payload of a `DeployGlobalContract` action.
fn read_deploy_global(b: &[u8], p: usize, Ghost(w): Ghost<Action>) -> (r: Result<
    (Action, usize),
    ReadError,
>)
    ensures
        r matches Ok((a, e)) ==> spec_discriminant(a) == 9 && read_as(b@, p as int, e as int, payload_form(a)),
        (w is DeployGlobalContract && holds_at(b@, p as int, payload_form(w))) ==> (r matches Ok((a, e))
            && e == p + payload_form(w)->0.len()),
{
    let ghost (wc, wm) = match w {
        Action::DeployGlobalContract(g) => (g.code.0@, g.deploy_mode),
        _ => (seq![], GlobalContractDeployMode::CodeHash),
    };
    proof {
        if w is DeployGlobalContract && holds_at(b@, p as int, payload_form(w)) {
            lemma_holds_join(b@, p as int, bytes_form(wc), Some(deploy_mode_form(wm)));
        }
    }
    let (code, q) = read_bytes(b, p, Ghost(wc))?;
    let (tag, e) = read_u8(b, q)?;
    let deploy_mode = if tag == 0 {
        GlobalContractDeployMode::CodeHash
    } else if tag == 1 {
        GlobalContractDeployMode::AccountId
    } else {
        proof {
            if w is DeployGlobalContract && holds_at(b@, p as int, payload_form(w)) {
                assert(b@.subrange(q as int, q + 1)[0] == b@[q as int]);
            }
        }
        return Err(ReadError::InvalidTag(tag));
    };
    proof {
        lemma_read_join(b@, p as int, q as int, e as int, bytes_form(code@), Some(deploy_mode_form(deploy_mode)));
    }
    Ok((Action::DeployGlobalContract(DeployGlobalContractAction { code: Base64VecU8(code), deploy_mode }), e))
}


/// Appending an action to a list appends its form.
proof fn lemma_actions_concat_push(v: Seq<NonDelegateAction>, n: NonDelegateAction)
    ensures
        actions_concat(v.push(n)) == join(actions_concat(v), item_form(n)),
{
    assert(v.push(n).drop_last() =~= v);
}

/// The actions of a list are its first action, then the rest.
proof fn lemma_actions_concat_front(v: Seq<NonDelegateAction>)
    requires
        v.len() > 0,
    ensures
        actions_concat(v) == join(item_form(v[0]), actions_concat(v.drop_first())),
    decreases v.len(),
{
    if v.len() == 1 {
        assert(v.drop_last() =~= Seq::<NonDelegateAction>::empty());
        assert(v.drop_first() =~= Seq::<NonDelegateAction>::empty());
        if let Some(x) = item_form(v[0]) {
            assert(x + seq![] =~= x);
            assert(seq![] + x =~= x);
        }
    } else {
        lemma_actions_concat_front(v.drop_last());
        assert(v.drop_last().drop_first() =~= v.drop_first().drop_last());
        match (item_form(v[0]), actions_concat(v.drop_first().drop_last()), item_form(v.last())) {
            (Some(x), Some(y), Some(z)) => {
                assert(x + y + z =~= x + (y + z));
            },
            _ => {},
        }
    }
}

/// Reads a list of delegated actions after the list's length.
fn read_actions(b: &[u8], pos: usize, Ghost(w): Ghost<Seq<NonDelegateAction>>) -> (r: Result<
    (Vec<NonDelegateAction>, usize),
    ReadError,
>)
    requires
        pos <= b@.len(),
    ensures
        r matches Ok((v, e)) ==> read_as(b@, pos as int, e as int, join(length_prefix(v@.len()), actions_concat(v@))),
        holds_at(b@, pos as int, join(length_prefix(w.len()), actions_concat(w))) ==> (r matches Ok((v, e))
            && e == pos + join(length_prefix(w.len()), actions_concat(w))->0.len()),
    decreases b@.len() - pos + 1, 0nat,
{
    let ghost complete = holds_at(b@, pos as int, join(length_prefix(w.len()), actions_concat(w)));
    proof {
        if complete {
            lemma_holds_join(b@, pos as int, length_prefix(w.len()), actions_concat(w));
        }
    }
    let (n, start) = read_length(b, pos, Ghost(w.len()))?;
    let mut v: Vec<NonDelegateAction> = Vec::new();
    let mut p: usize = start;
    let mut i: usize = 0;
    assert(b@.subrange(start as int, start as int) =~= Seq::<u8>::empty());
    assert(w.subrange(0, w.len() as int) =~= w);
    while i < n
        invariant
            pos < start <= p <= b@.len(),
            i <= n,
            v@.len() == i,
            read_as(b@, start as int, p as int, actions_concat(v@)),
            complete == holds_at(b@, pos as int, join(length_prefix(w.len()), actions_concat(w))),
            complete ==> n == w.len() && holds_at(b@, start as int, actions_concat(w)),
            complete ==> holds_at(b@, p as int, actions_concat(w.subrange(i as int, w.len() as int)))
                && p + actions_concat(w.subrange(i as int, w.len() as int))->0.len() == start
                + actions_concat(w)->0.len(),
        decreases n - i,
    {
        let ghost item: Action = if complete { w[i as int].0 } else { Action::CreateAccount(CreateAccountAction {}) };
        proof {
            if complete {
                let rest = w.subrange(i as int, w.len() as int);
                assert(rest[0] == w[i as int]);
                lemma_actions_concat_front(rest);
                assert(rest.drop_first() =~= w.subrange(i + 1, w.len() as int));
                lemma_holds_join(b@, p as int, item_form(w[i as int]), actions_concat(w.subrange(i + 1, w.len() as int)));
                assert(holds_at(b@, p as int, action_form(item)));
                lemma_action_tag(b@, p as int, item);
            }
        }
        let (a, q) = read_action(b, p, Ghost(item))?;
        proof {
            lemma_action_tag(b@, p as int, a);
        }
        let nd = match NonDelegateAction::try_from(a) {
            Ok(nd) => nd,
            Err(_) => {
                return Err(ReadError::NestedDelegate);
            },
        };
        proof {
            lemma_actions_concat_push(v@, nd);
            lemma_read_join(b@, start as int, p as int, q as int, actions_concat(v@), item_form(nd));
        }
        v.push(nd);
        p = q;
        i = i + 1;
    }
    proof {
        lemma_read_join(b@, pos as int, start as int, p as int, length_prefix(n as nat), actions_concat(v@));
        if complete {
            assert(w.subrange(i as int, w.len() as int) =~= Seq::<NonDelegateAction>::empty());
        }
    }
    Ok((v, p))
}

/// Reads the fixed-size fields that end a signed delegate action.
fn read_delegate_tail(
    b: &[u8],
    p: usize,
    Ghost(w): Ghost<(u64, u64, PublicKey, Signature)>,
) -> (r: Result<(u64, u64, PublicKey, Signature, usize), ReadError>)
    ensures
        r matches Ok((n, m, k, s, e)) ==> read_as(b@, p as int, e as int, Some(delegate_tail_form(n, m, k, s))),
        holds_at(b@, p as int, Some(delegate_tail_form(w.0, w.1, w.2, w.3))) ==> (r matches Ok((n, m, k, s, e))
            && e == p + delegate_tail_form(w.0, w.1, w.2, w.3).len()),
{
    proof {
        lemma_int_form_lengths(w.0, 0);
        lemma_int_form_lengths(w.1, 0);
        if holds_at(b@, p as int, Some(delegate_tail_form(w.0, w.1, w.2, w.3))) {
            let x = Some(u64_form(w.1) + (public_key_form(w.2) + signature_form(w.3)));
            lemma_holds_join(b@, p as int, Some(u64_form(w.0)), x);
            lemma_holds_join(b@, p + 8, Some(u64_form(w.1)), Some(public_key_form(w.2) + signature_form(w.3)));
            lemma_holds_join(b@, p + 16, Some(public_key_form(w.2)), Some(signature_form(w.3)));
        }
    }
    let (nonce, q1) = read_u64(b, p)?;
    let (max_block_height, q2) = read_u64(b, q1)?;
    let (public_key, q3) = read_public_key(b, q2, Ghost(w.2))?;
    let (signature, e) = read_signature(b, q3, Ghost(w.3))?;
    proof {
        lemma_read_join(b@, q2 as int, q3 as int, e as int, Some(public_key_form(public_key)), Some(signature_form(signature)));
        lemma_read_join(b@, q1 as int, q2 as int, e as int, Some(u64_form(max_block_height)), Some(public_key_form(public_key) + signature_form(signature)));
        lemma_read_join(b@, p as int, q1 as int, e as int, Some(u64_form(nonce)), Some(u64_form(max_block_height) + (public_key_form(public_key) + signature_form(signature))));
    }
    Ok((nonce, max_block_height, public_key, signature, e))
}

/// Reads the payload of a `Delegate` action.
fn read_signed_delegate(b: &[u8], p: usize, Ghost(w): Ghost<Action>) -> (r: Result<
    (Action, usize),
    ReadError,
>)
    requires
        p <= b@.len(),
    ensures
        r matches Ok((a, e)) ==> spec_discriminant(a) == 8 && read_as(b@, p as int, e as int, payload_form(a)),
        (w is Delegate && holds_at(b@, p as int, payload_form(w))) ==> (r matches Ok((a, e))
            && e == p + payload_form(w)->0.len()),
    decreases b@.len() - p + 1, 1nat,
{
    let ghost wd: SignedDelegateAction = match w {
        Action::Delegate(sd) => *sd,
        _ => vstd::pervasive::arbitrary(),
    };
    let ghost d = wd.delegate_action;
    let ghost ids = join(account_form(d.sender_id), account_form(d.receiver_id));
    let ghost list = join(length_prefix(d.actions@.len()), actions_concat(d.actions@));
    let ghost tail = delegate_tail_form(d.nonce.0, d.max_block_height.0, d.public_key, wd.signature);
    proof {
        if w is Delegate && holds_at(b@, p as int, payload_form(w)) {
            lemma_holds_join(b@, p as int, join(ids, list), Some(tail));
            lemma_holds_join(b@, p as int, ids, list);
            lemma_holds_join(b@, p as int, account_form(d.sender_id), account_form(d.receiver_id));
        }
    }
    let (sender_id, q1) = read_account(b, p, Ghost(d.sender_id))?;
    let (receiver_id, q2) = read_account(b, q1, Ghost(d.receiver_id))?;
    let (actions, q3) = read_actions(b, q2, Ghost(d.actions@))?;
    let (nonce, max_block_height, public_key, signature, e) = read_delegate_tail(
        b,
        q3,
        Ghost((d.nonce.0, d.max_block_height.0, d.public_key, wd.signature)),
    )?;
    let ghost g_ids = join(account_form(sender_id), account_form(receiver_id));
    let ghost g_list = join(length_prefix(actions@.len()), actions_concat(actions@));
    proof {
        lemma_read_join(b@, p as int, q1 as int, q2 as int, account_form(sender_id), account_form(receiver_id));
        lemma_read_join(b@, p as int, q2 as int, q3 as int, g_ids, g_list);
        lemma_read_join(
            b@,
            p as int,
            q3 as int,
            e as int,
            join(g_ids, g_list),
            Some(delegate_tail_form(nonce, max_block_height, public_key, signature)),
        );
    }
    let delegate_action = DelegateAction {
        sender_id,
        receiver_id,
        actions,
        nonce: U64(nonce),
        max_block_height: U64(max_block_height),
        public_key,
    };
    Ok((Action::Delegate(Box::new(SignedDelegateAction { delegate_action, signature })), e))
}

/// Reads the payload of an action of the kind `tag`.
fn read_payload(b: &[u8], p: usize, tag: u8, Ghost(w): Ghost<Action>) -> (r: Result<
    (Action, usize),
    ReadError,
>)
    requires
        p <= b@.len(),
    ensures
        r matches Ok((a, e)) ==> spec_discriminant(a) == tag && read_as(b@, p as int, e as int, payload_form(a)),
        (spec_discriminant(w) == tag && holds_at(b@, p as int, payload_form(w))) ==> (r matches Ok((a, e))
            && e == p + payload_form(w)->0.len()),
    decreases b@.len() - p + 1, 2nat,
{
    if tag == 0 {
        assert(b@.subrange(p as int, p as int) =~= Seq::<u8>::empty());
        Ok((Action::CreateAccount(CreateAccountAction {}), p))
    } else if tag == 1 {
        let ghost wc = match w {
            Action::DeployContract(d) => d.code.0@,
            _ => seq![],
        };
        let (code, e) = read_bytes(b, p, Ghost(wc))?;
        Ok((Action::DeployContract(DeployContractAction { code: Base64VecU8(code) }), e))
    } else if tag == 2 {
        read_function_call(b, p, Ghost(w))
    } else if tag == 3 {
        proof {
            if let Action::Transfer(t) = w {
                lemma_int_form_lengths(0, t.deposit.0);
            }
        }
        let (deposit, e) = read_u128(b, p)?;
        Ok((Action::Transfer(TransferAction { deposit: U128(deposit) }), e))
    } else if tag == 4 {
        read_stake(b, p, Ghost(w))
    } else if tag == 5 {
        read_add_key(b, p, Ghost(w))
    } else if tag == 6 {
        let ghost wk = match w {
            Action::DeleteKey(k) => k.public_key,
            _ => vstd::pervasive::arbitrary(),
        };
        let (public_key, e) = read_public_key(b, p, Ghost(wk))?;
        Ok((Action::DeleteKey(Box::new(DeleteKeyAction { public_key })), e))
    } else if tag == 7 {
        let ghost wi = match w {
            Action::DeleteAccount(d) => d.beneficiary_id,
            _ => vstd::pervasive::arbitrary(),
        };
        let (beneficiary_id, e) = read_account(b, p, Ghost(wi))?;
        Ok((Action::DeleteAccount(DeleteAccountAction { beneficiary_id }), e))
    } else if tag == 8 {
        read_signed_delegate(b, p, Ghost(w))
    } else if tag == 9 {
        read_deploy_global(b, p, Ghost(w))
    } else if tag == 10 {
        let ghost wi = match w {
            Action::UseGlobalContract(u) => u.contract_identifier,
            _ => vstd::pervasive::arbitrary(),
        };
        let (contract_identifier, e) = read_identifier(b, p, Ghost(wi))?;
        Ok((Action::UseGlobalContract(Box::new(UseGlobalContractAction { contract_identifier })), e))
    } else {
        Err(ReadError::InvalidTag(tag))
    }
}

/// Reads an action in canonical binary form from `pos` on.
fn read_action(b: &[u8], pos: usize, Ghost(w): Ghost<Action>) -> (r: Result<(Action, usize), ReadError>)
    requires
        pos <= b@.len(),
    ensures
        r matches Ok((a, e)) ==> read_as(b@, pos as int, e as int, action_form(a)),
        holds_at(b@, pos as int, action_form(w)) ==> (r matches Ok((a, e)) && e == pos
            + action_form(w)->0.len()),
    decreases b@.len() - pos, 3nat,
{
    proof {
        if holds_at(b@, pos as int, action_form(w)) {
            lemma_action_tag(b@, pos as int, w);
        }
    }
    let (tag, p) = read_u8(b, pos)?;
    let (a, e) = read_payload(b, p, tag, Ghost(w))?;
    proof {
        lemma_read_join(b@, pos as int, p as int, e as int, Some(seq![tag]), payload_form(a));
    }
    Ok((a, e))
}

impl Action {
    /// Reads an action from its canonical binary form, which must fill `b`.
    /// Succeeds on the binary form of every action.
    pub fn from_borsh(b: &[u8]) -> (r: Result<Action, ReadError>)
        ensures
            r matches Ok(a) ==> action_form(a) == Some(b@),
            (exists|w: Action| action_form(w) == Some(b@)) ==> r is Ok,
    {
        let ghost w = choose|w: Action| action_form(w) == Some(b@);
        proof {
            if action_form(w) == Some(b@) {
                assert(b@.subrange(0, b@.len() as int) =~= b@);
            }
        }
        let (a, e) = read_action(b, 0, Ghost(w))?;
        if e != b.len() {
            return Err(ReadError::TrailingBytes);
        }
        assert(b@.subrange(0, b@.len() as int) =~= b@);
        Ok(a)
    }
}


/// The binary form of every action starts with the tag of its kind, so two
/// actions with the same binary form, such as an action and the one read back
/// from its form, are of the same kind.
pub proof fn lemma_discriminant_stable(a: Action, decoded: Action)
    requires
        action_form(a) is Some,
        action_form(decoded) == action_form(a),
    ensures
        action_form(a)->0[0] == spec_discriminant(a),
        spec_discriminant(decoded) == spec_discriminant(a),
{
    assert(action_form(a)->0[0] == spec_discriminant(a));
    assert(action_form(decoded)->0[0] == spec_discriminant(decoded));
}

} // verus!
