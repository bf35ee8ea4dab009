use chain_tx::bitcoin_transaction::{LockTime, LockTimeError, OutPoint, TxIn, TxOut};
use chain_tx::bitcoin_transaction_builder::{BitcoinTransactionBuilder, BuildError, TxField};
use chain_tx::version::Version;

#[test]
fn test_build() {
    let builder = BitcoinTransactionBuilder::new()
        .version(Version(1))
        .lock_time(LockTime::from_height(10000).unwrap())
        .inputs(vec![])
        .outputs(vec![])
        .build()
        .unwrap();

    assert_eq!(builder.version, Version(1));
    assert_eq!(builder.lock_time, LockTime::from_height(10000).unwrap());
}

fn sample_input() -> TxIn {
    TxIn {
        previous_output: OutPoint { txid: [7; 32], vout: 1 },
        script_sig: vec![0x51],
        sequence: 0xffff_fffe,
    }
}

fn sample_output() -> TxOut {
    TxOut { value: 50_000, script_pubkey: vec![0x00, 0x14] }
}

#[test]
fn build_without_inputs_fails() {
    let r = BitcoinTransactionBuilder::new()
        .version(Version(2))
        .lock_time(LockTime::from_consensus(0))
        .outputs(vec![sample_output()])
        .build();
    assert_eq!(r, Err(BuildError::MissingField(TxField::Inputs)));
}

#[test]
fn build_reports_each_missing_field() {
    assert_eq!(
        BitcoinTransactionBuilder::new().build(),
        Err(BuildError::MissingField(TxField::Version))
    );
    assert_eq!(
        BitcoinTransactionBuilder::default().version(Version(1)).build(),
        Err(BuildError::MissingField(TxField::LockTime))
    );
    assert_eq!(
        BitcoinTransactionBuilder::new()
            .version(Version(1))
            .lock_time(LockTime::from_consensus(5))
            .inputs(vec![])
            .build(),
        Err(BuildError::MissingField(TxField::Outputs))
    );
}

#[test]
fn build_keeps_fields_in_order_and_last_write_wins() {
    let tx = BitcoinTransactionBuilder::new()
        .outputs(vec![sample_output(), TxOut { value: 1, script_pubkey: vec![] }])
        .inputs(vec![])
        .version(Version(1))
        .version(Version(2))
        .lock_time(LockTime::from_time(1_700_000_000).unwrap())
        .inputs(vec![sample_input()])
        .build()
        .unwrap();
    assert_eq!(tx.version, Version(2));
    assert_eq!(tx.lock_time.to_consensus_u32(), 1_700_000_000);
    assert_eq!(tx.input, vec![sample_input()]);
    assert_eq!(tx.output[0], sample_output());
    assert_eq!(tx.output[1].value, 1);
}

#[test]
fn lock_time_ranges() {
    assert_eq!(
        LockTime::from_height(500_000_000),
        Err(LockTimeError::InvalidHeight(500_000_000))
    );
    assert_eq!(LockTime::from_time(499_999_999), Err(LockTimeError::InvalidTime(499_999_999)));
    assert!(LockTime::from_height(499_999_999).unwrap().is_block_height());
    assert!(!LockTime::from_time(500_000_000).unwrap().is_block_height());
    assert_eq!(LockTime::from_height(10000).unwrap().to_consensus_u32(), 10000);
}
