use chain_tx::actions::{
    AccessKey, AccessKeyPermission, Action, AddKeyAction, CreateAccountAction, DelegateAction,
    DeleteAccountAction, DeleteKeyAction, DeployContractAction, DeployGlobalContractAction,
    FunctionCallAction, FunctionCallPermission, GlobalContractDeployMode,
    GlobalContractIdentifier, NonDelegateAction, SignedDelegateAction, StakeAction,
    TransferAction, UseGlobalContractAction,
};
use chain_tx::binary::ReadError;
use chain_tx::near_types::{
    AccountId, Base64VecU8, BlockHash, ED25519PublicKey, ED25519Signature, PublicKey,
    Secp256K1PublicKey, Signature, ED25519_PUBLIC_KEY_LENGTH, U128, U64,
};

fn account(s: &str) -> AccountId {
    AccountId::new(s.to_string()).unwrap()
}

fn get_actions() -> Vec<Action> {
    vec![
        Action::CreateAccount(CreateAccountAction {}),
        Action::DeployContract(DeployContractAction { code: Base64VecU8(vec![1, 2, 3]) }),
        Action::FunctionCall(Box::new(FunctionCallAction {
            method_name: "test".to_string(),
            args: vec![4, 5, 6],
            gas: U64(1000000),
            deposit: U128(0),
        })),
        Action::Transfer(TransferAction { deposit: U128(1000000000) }),
        Action::Stake(Box::new(StakeAction {
            stake: U128(100000000),
            public_key: PublicKey::ED25519(ED25519PublicKey([0; ED25519_PUBLIC_KEY_LENGTH])),
        })),
        Action::AddKey(Box::new(AddKeyAction {
            public_key: PublicKey::ED25519(ED25519PublicKey([1; ED25519_PUBLIC_KEY_LENGTH])),
            access_key: AccessKey { nonce: U64(0), permission: AccessKeyPermission::FullAccess },
        })),
        Action::DeleteKey(Box::new(DeleteKeyAction {
            public_key: PublicKey::ED25519(ED25519PublicKey([2; ED25519_PUBLIC_KEY_LENGTH])),
        })),
        Action::DeleteAccount(DeleteAccountAction { beneficiary_id: account("alice.near") }),
        Action::DeployGlobalContract(DeployGlobalContractAction {
            code: Base64VecU8(vec![3, 4, 5]),
            deploy_mode: GlobalContractDeployMode::CodeHash,
        }),
        Action::UseGlobalContract(Box::new(UseGlobalContractAction {
            contract_identifier: GlobalContractIdentifier::CodeHash(BlockHash([4; 32])),
        })),
    ]
}

fn delegate(inner: Vec<Action>) -> Action {
    let actions = inner.into_iter().map(|a| NonDelegateAction::try_from(a).unwrap()).collect();
    Action::Delegate(Box::new(SignedDelegateAction {
        delegate_action: DelegateAction {
            sender_id: account("alice.near"),
            receiver_id: account("bob.near"),
            actions,
            nonce: U64(7),
            max_block_height: U64(1_000),
            public_key: PublicKey::ED25519(ED25519PublicKey([9; 32])),
        },
        signature: Signature::ED25519(ED25519Signature([5; 64])),
    }))
}

#[test]
fn test_action_borsh_serialization() {
    let actions = get_actions();

    for action in actions {
        let serialized = action.to_borsh().expect("Failed to serialize action to borsh");

        let deserialized =
            Action::from_borsh(&serialized).expect("Failed to deserialize action from borsh");

        assert_eq!(
            action, deserialized,
            "Serialization/Deserialization mismatch: original action: {action:?}, deserialized action: {deserialized:?}"
        );
    }
}

#[test]
fn discriminants_follow_declared_order() {
    let mut actions = get_actions();
    actions.insert(8, delegate(vec![]));
    assert_eq!(actions.len(), 11);
    for (i, action) in actions.iter().enumerate() {
        assert_eq!(action.discriminant() as usize, i);
        let bytes = action.to_borsh().unwrap();
        assert_eq!(bytes[0] as usize, i);
        let back = Action::from_borsh(&bytes).unwrap();
        assert_eq!(back.discriminant() as usize, i);
    }
}

#[test]
fn transfer_layout() {
    let a = Action::Transfer(TransferAction { deposit: U128(1_000_000_000) });
    let mut expected = vec![3u8];
    expected.extend_from_slice(&1_000_000_000u128.to_le_bytes());
    assert_eq!(a.to_borsh().unwrap(), expected);
}

#[test]
fn function_call_layout_matches_borsh_primitives() {
    let a = Action::FunctionCall(Box::new(FunctionCallAction {
        method_name: "test".to_string(),
        args: vec![4, 5, 6],
        gas: U64(1000000),
        deposit: U128(0),
    }));
    let mut expected = vec![2u8];
    expected.extend(borsh::to_vec(&"test".to_string()).unwrap());
    expected.extend(borsh::to_vec(&vec![4u8, 5, 6]).unwrap());
    expected.extend(borsh::to_vec(&1000000u64).unwrap());
    expected.extend(borsh::to_vec(&0u128).unwrap());
    assert_eq!(a.to_borsh().unwrap(), expected);
}

#[test]
fn add_key_with_function_call_permission_round_trip() {
    let a = Action::AddKey(Box::new(AddKeyAction {
        public_key: PublicKey::SECP256K1(Secp256K1PublicKey([3; 64])),
        access_key: AccessKey {
            nonce: U64(42),
            permission: AccessKeyPermission::FunctionCall(FunctionCallPermission {
                allowance: Some(U128(250)),
                receiver_id: "market.near".to_string(),
                method_names: vec!["buy".to_string(), "sell".to_string()],
            }),
        },
    }));
    let bytes = a.to_borsh().unwrap();
    let mut expected = vec![5u8, 1];
    expected.extend([3u8; 64]);
    expected.extend(borsh::to_vec(&42u64).unwrap());
    expected.push(0);
    expected.extend(borsh::to_vec(&Some(250u128)).unwrap());
    expected.extend(borsh::to_vec(&"market.near".to_string()).unwrap());
    expected.extend(borsh::to_vec(&vec!["buy".to_string(), "sell".to_string()]).unwrap());
    assert_eq!(bytes, expected);
    assert_eq!(Action::from_borsh(&bytes).unwrap(), a);
}

#[test]
fn delegate_round_trip() {
    let a = delegate(get_actions());
    let bytes = a.to_borsh().unwrap();
    assert_eq!(bytes[0], 8);
    assert_eq!(Action::from_borsh(&bytes).unwrap(), a);
}

#[test]
fn use_global_contract_by_account_round_trip() {
    let a = Action::UseGlobalContract(Box::new(UseGlobalContractAction {
        contract_identifier: GlobalContractIdentifier::AccountId(account("owner.near")),
    }));
    let bytes = a.to_borsh().unwrap();
    let mut expected = vec![10u8, 1];
    expected.extend(borsh::to_vec(&"owner.near".to_string()).unwrap());
    assert_eq!(bytes, expected);
    assert_eq!(Action::from_borsh(&bytes).unwrap(), a);
}

#[test]
fn delegate_is_not_a_non_delegate_action() {
    assert!(NonDelegateAction::try_from(delegate(vec![])).is_err());
    assert!(NonDelegateAction::try_from(delegate(get_actions())).is_err());
    for action in get_actions() {
        let expected = format!("{action:?}");
        let wrapped = NonDelegateAction::try_from(action).unwrap();
        assert_eq!(format!("{:?}", wrapped.action()), expected);
        assert_eq!(format!("{:?}", wrapped.into_action()), expected);
    }
}

#[test]
fn nested_delegate_bytes_are_rejected() {
    let inner = delegate(vec![]).to_borsh().unwrap();
    let outer = delegate(vec![]).to_borsh().unwrap();
    // Replace the empty action list of the outer delegation (count 0) with one
    // holding the inner delegation.
    let ids_len = 4 + "alice.near".len() + 4 + "bob.near".len();
    let count_at = 1 + ids_len;
    assert_eq!(&outer[count_at..count_at + 4], &[0, 0, 0, 0]);
    let mut forged = outer[..count_at].to_vec();
    forged.extend([1, 0, 0, 0]);
    forged.extend(&inner);
    forged.extend(&outer[count_at + 4..]);
    assert_eq!(Action::from_borsh(&forged), Err(ReadError::NestedDelegate));
}

#[test]
fn decode_errors() {
    assert_eq!(Action::from_borsh(&[]), Err(ReadError::UnexpectedEnd));
    assert_eq!(Action::from_borsh(&[11]), Err(ReadError::InvalidTag(11)));
    assert_eq!(Action::from_borsh(&[0, 0]), Err(ReadError::TrailingBytes));
    assert_eq!(Action::from_borsh(&[3, 1, 2]), Err(ReadError::UnexpectedEnd));
    assert_eq!(Action::from_borsh(&[7, 2, 0, 0, 0, 0xff, 0xfe]), Err(ReadError::InvalidUtf8));
    assert_eq!(Action::from_borsh(&[7, 2, 0, 0, 0, b'A', b'B']), Err(ReadError::InvalidAccountId));
    assert_eq!(Action::from_borsh(&[9, 0, 0, 0, 0, 2]), Err(ReadError::InvalidTag(2)));
    assert_eq!(Action::from_borsh(&[0]), Ok(Action::CreateAccount(CreateAccountAction {})));
}

#[test]
fn account_id_validation() {
    assert!(AccountId::new("alice.near".to_string()).is_ok());
    assert!(AccountId::new("a".to_string()).is_err());
    assert!(AccountId::new("Alice.near".to_string()).is_err());
    assert!(AccountId::new("alice..near".to_string()).is_err());
    assert_eq!(account("bob.near").as_str(), "bob.near");
}
