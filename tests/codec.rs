use concordium_node::block::{BakedBlock, Block, BlockData, BlockFields, PendingBlock};
use concordium_node::catch_up::CatchUpStatus;
use concordium_node::transaction::{
    ContractAddress, SchemeId, Transaction, TransactionHeader, TransactionPayload, TransactionType,
};
use concordium_node::wire::{
    read_bytestring, read_bytestring_medium, read_bytestring_short_length, write_bytestring,
    write_bytestring_short_length, ProtocolError,
};

fn sample_header(nonce: u64) -> TransactionHeader {
    TransactionHeader {
        scheme_id: SchemeId::Ed25519,
        sender_key: vec![1, 2, 3],
        nonce,
        gas_amount: 500,
        finalized_ptr: vec![7u8; 32],
    }
}

fn sample_tx(payload: TransactionPayload) -> Transaction {
    Transaction { signature: vec![9, 9], header: sample_header(5), payload, hash: Vec::new() }
}

fn regular_block(txs: Vec<Transaction>) -> Block {
    Block {
        slot: 42,
        data: BlockData::Regular(BakedBlock {
            fields: BlockFields {
                pointer: vec![1u8; 32],
                baker_id: 3,
                proof: vec![2u8; 80],
                nonce: vec![3u8; 80],
                last_finalized: vec![4u8; 32],
            },
            transactions: txs,
            signature: vec![5u8; 64],
        }),
    }
}

fn hex(bytes: &[u8]) -> String {
    bytes.iter().map(|b| format!("{:02x}", b)).collect()
}

#[test]
fn transaction_round_trip() {
    let tx = sample_tx(TransactionPayload::Update {
        amount: 10,
        address: ContractAddress { index: 1, subindex: 2 },
        message: vec![0xAA, 0xBB],
    });
    let bytes = tx.serialize();
    let (back, n) = Transaction::deserialize(&bytes).unwrap();
    assert_eq!(n, bytes.len());
    assert_eq!(back.serialize(), bytes);
    assert_eq!(back.payload.transaction_type(), TransactionType::Update);
    assert_eq!(back.hash.len(), 32);
}

#[test]
fn transaction_layout_is_big_endian() {
    let tx = sample_tx(TransactionPayload::Transfer {
        target_scheme: SchemeId::Cl,
        target_address: vec![0x11; 21],
        amount: 0x0102030405060708,
    });
    let bytes = tx.serialize();
    // signature length prefix, then the signature
    assert_eq!(&bytes[..10], &[0, 0, 0, 0, 0, 0, 0, 2, 9, 9]);
    // scheme 1, key length 3, key, nonce 5, gas 500
    assert_eq!(bytes[10], 1);
    assert_eq!(&bytes[11..22], &[0, 0, 0, 0, 0, 0, 0, 3, 1, 2, 3]);
    assert_eq!(&bytes[22..30], &[0, 0, 0, 0, 0, 0, 0, 5]);
    assert_eq!(&bytes[30..38], &[0, 0, 0, 0, 0, 0, 1, 0xF4]);
    // payload length 31 after the 32-byte pointer
    assert_eq!(&bytes[70..74], &[0, 0, 0, 31]);
    assert_eq!(bytes[74], 3);
    assert_eq!(bytes[75], 0);
    assert_eq!(&bytes[bytes.len() - 8..], &[1, 2, 3, 4, 5, 6, 7, 8]);
    assert_eq!(bytes.len(), 74 + 31);
}

#[test]
fn init_contract_round_trip() {
    let tx = sample_tx(TransactionPayload::InitContract {
        amount: 99,
        module: vec![0x42; 32],
        contract: 7,
        param: vec![1, 2, 3, 4],
    });
    let bytes = tx.serialize();
    let (back, n) = Transaction::deserialize(&bytes).unwrap();
    assert_eq!(n, bytes.len());
    assert_eq!(back.serialize(), bytes);
    assert_eq!(back.payload.transaction_type(), TransactionType::InitContract);
}

#[test]
fn transaction_hash_is_sha256_of_its_bytes() {
    let tx = sample_tx(TransactionPayload::DeployModule(vec![1, 2, 3]));
    let mut bytes = tx.serialize();
    let n = bytes.len();
    bytes.extend_from_slice(&[0xFF, 0xFF]);
    let (back, used) = Transaction::deserialize(&bytes).unwrap();
    assert_eq!(used, n);
    assert_ne!(back.hash, bytes[..n].to_vec());
    assert_eq!(back.hash.len(), 32);
    let (again, _) = Transaction::deserialize(&bytes[..n]).unwrap();
    assert_eq!(again.hash, back.hash);
}

#[test]
fn zero_nonce_rejected() {
    let mut tx = sample_tx(TransactionPayload::DeployModule(vec![1, 2, 3]));
    tx.header.nonce = 1;
    let mut bytes = tx.serialize();
    let at = 8 + 2 + 1 + 8 + 3;
    for b in &mut bytes[at..at + 8] {
        *b = 0;
    }
    assert_eq!(Transaction::deserialize(&bytes).unwrap_err(), ProtocolError::ZeroField);
}

#[test]
fn oversized_payload_rejected() {
    let tx = sample_tx(TransactionPayload::DeployModule(vec![1, 2, 3]));
    let mut bytes = tx.serialize();
    let at = 70;
    let len: u32 = 512 * 1024 * 1024 + 1;
    bytes[at..at + 4].copy_from_slice(&len.to_be_bytes());
    assert_eq!(Transaction::deserialize(&bytes).unwrap_err(), ProtocolError::LengthExceeded);
    let len: u32 = 512 * 1024 * 1024;
    bytes[at..at + 4].copy_from_slice(&len.to_be_bytes());
    assert_eq!(Transaction::deserialize(&bytes).unwrap_err(), ProtocolError::Truncated);
}

#[test]
fn every_truncation_of_a_transaction_fails() {
    let tx = sample_tx(TransactionPayload::InitContract {
        amount: 1,
        module: vec![0x42; 32],
        contract: 2,
        param: vec![9; 5],
    });
    let bytes = tx.serialize();
    for k in 0..bytes.len() {
        assert!(Transaction::deserialize(&bytes[..k]).is_err(), "prefix of {} bytes decoded", k);
    }
}

#[test]
fn unsupported_payload_kind_rejected() {
    let tx = sample_tx(TransactionPayload::DeployModule(vec![1, 2, 3]));
    let mut bytes = tx.serialize();
    bytes[74] = 4;
    assert_eq!(Transaction::deserialize(&bytes).unwrap_err(), ProtocolError::UnknownVariant);
    bytes[74] = 10;
    assert_eq!(Transaction::deserialize(&bytes).unwrap_err(), ProtocolError::UnknownVariant);
}

#[test]
fn malformed_payload_length_rejected() {
    let tx = sample_tx(TransactionPayload::InitContract {
        amount: 1,
        module: vec![0x42; 32],
        contract: 2,
        param: vec![],
    });
    let mut bytes = tx.serialize();
    bytes[70..74].copy_from_slice(&44u32.to_be_bytes());
    assert_eq!(Transaction::deserialize(&bytes).unwrap_err(), ProtocolError::Malformed);
}

#[test]
fn long_signature_rejected() {
    let mut bytes = vec![0u8; 8];
    bytes[..8].copy_from_slice(&65537u64.to_be_bytes());
    assert_eq!(Transaction::deserialize(&bytes).unwrap_err(), ProtocolError::LengthExceeded);
}

#[test]
fn transaction_type_codes() {
    assert_eq!(TransactionType::try_from(0).unwrap(), TransactionType::DeployModule);
    assert_eq!(TransactionType::try_from(9).unwrap(), TransactionType::UpdateBakerSignKey);
    assert_eq!(TransactionType::try_from(10).unwrap_err(), ProtocolError::UnknownVariant);
    assert_eq!(TransactionType::Transfer.code(), 3);
}

#[test]
fn regular_block_round_trip() {
    let block = regular_block(vec![
        sample_tx(TransactionPayload::DeployModule(vec![1, 2, 3])),
        sample_tx(TransactionPayload::Update {
            amount: 1,
            address: ContractAddress { index: 5, subindex: 6 },
            message: vec![],
        }),
    ]);
    let bytes = block.serialize();
    let back = Block::deserialize(&bytes).unwrap();
    assert_eq!(back.serialize(), bytes);
    assert_eq!(back.slot(), 42);
    assert!(!back.is_genesis());
    assert_eq!(back.pointer().unwrap(), &vec![1u8; 32]);
    assert_eq!(back.last_finalized().unwrap(), &vec![4u8; 32]);
    assert_eq!(back.block_data().transactions.len(), 2);
}

#[test]
fn genesis_block_keeps_its_body() {
    let bytes = vec![0, 0, 0, 0, 0, 0, 0, 0, 1, 2, 3];
    let block = Block::deserialize(&bytes).unwrap();
    assert!(block.is_genesis());
    assert_eq!(block.genesis_data(), &vec![1, 2, 3]);
    assert!(block.pointer().is_none());
    assert_eq!(block.serialize(), bytes);
    assert_eq!(hex(&block.hash()), "8f5081413c280a834869fedd37422923f47e188013f22c7943cf0061e8346b61");
}

#[test]
fn block_identity_is_hash_of_canonical_bytes() {
    let block = regular_block(vec![sample_tx(TransactionPayload::DeployModule(vec![7; 10]))]);
    let bytes = block.serialize();
    let pending = PendingBlock::new(&bytes).unwrap();
    assert_eq!(pending.hash, block.hash());
    assert_eq!(pending.hash, Block::deserialize(&bytes).unwrap().hash());
    assert_eq!(pending.hash.len(), 32);
    let again = PendingBlock::new(&pending.block.serialize()).unwrap();
    assert_eq!(again.hash, pending.hash);
}

#[test]
fn genesis_is_no_pending_block() {
    let bytes = vec![0, 0, 0, 0, 0, 0, 0, 0, 9];
    assert_eq!(PendingBlock::new(&bytes).unwrap_err(), ProtocolError::UnexpectedGenesis);
}

#[test]
fn every_truncation_of_a_regular_block_fails() {
    let block = regular_block(vec![sample_tx(TransactionPayload::DeployModule(vec![1, 2]))]);
    let bytes = block.serialize();
    for k in 0..bytes.len() {
        assert!(Block::deserialize(&bytes[..k]).is_err(), "prefix of {} bytes decoded", k);
    }
}

#[test]
fn block_with_trailing_bytes_rejected() {
    let block = regular_block(vec![]);
    let mut bytes = block.serialize();
    bytes.push(0);
    assert_eq!(Block::deserialize(&bytes).unwrap_err(), ProtocolError::Malformed);
}

#[test]
fn catch_up_status_round_trip() {
    let status = CatchUpStatus {
        is_request: true,
        last_finalized_block: vec![1u8; 32],
        last_finalized_height: 77,
        best_block: vec![2u8; 32],
        finalization_justifiers: vec![vec![3u8; 32], vec![4u8; 32]],
    };
    let bytes = status.serialize();
    assert_eq!(bytes.len(), 77 + 64);
    assert_eq!(bytes[0], 1);
    assert_eq!(&bytes[73..77], &[0, 0, 0, 2]);
    let (back, n) = CatchUpStatus::deserialize(&bytes).unwrap();
    assert_eq!(n, bytes.len());
    assert_eq!(back.serialize(), bytes);
    assert_eq!(back.last_finalized_height, 77);
    assert!(back.is_request);
}

#[test]
fn catch_up_status_errors() {
    let mut bytes = vec![0u8; 77];
    bytes[0] = 2;
    assert_eq!(CatchUpStatus::deserialize(&bytes).unwrap_err(), ProtocolError::UnknownVariant);
    let status = CatchUpStatus {
        is_request: false,
        last_finalized_block: vec![1u8; 32],
        last_finalized_height: 1,
        best_block: vec![2u8; 32],
        finalization_justifiers: vec![vec![3u8; 32]],
    };
    let full = status.serialize();
    for k in 0..full.len() {
        assert!(CatchUpStatus::deserialize(&full[..k]).is_err());
    }
    bytes[0] = 0;
    bytes[76] = 1;
    assert_eq!(CatchUpStatus::deserialize(&bytes).unwrap_err(), ProtocolError::Truncated);
    assert_eq!(CatchUpStatus::deserialize(&bytes[..50]).unwrap_err(), ProtocolError::Truncated);
}

#[test]
fn bytestrings_with_three_prefixes() {
    let mut out = Vec::new();
    write_bytestring_short_length(&mut out, &[7, 8]);
    assert_eq!(out, vec![0, 2, 7, 8]);
    assert_eq!(read_bytestring_short_length(&out, 0).unwrap(), (vec![7, 8], 4));
    let mut long = Vec::new();
    write_bytestring(&mut long, &[1]);
    assert_eq!(long, vec![0, 0, 0, 0, 0, 0, 0, 1, 1]);
    assert_eq!(read_bytestring(&long, 0).unwrap(), (vec![1], 9));
    assert_eq!(read_bytestring_medium(&[0, 0, 0, 1, 5], 0).unwrap(), (vec![5], 5));
    assert_eq!(read_bytestring_medium(&[0, 0, 0x10, 1], 0).unwrap_err(), ProtocolError::LengthExceeded);
    assert_eq!(read_bytestring_short_length(&[0x04, 0x01], 0).unwrap_err(), ProtocolError::LengthExceeded);
    assert_eq!(read_bytestring_short_length(&[0, 3, 1], 0).unwrap_err(), ProtocolError::Truncated);
    assert_eq!(read_bytestring(&[0, 0], 0).unwrap_err(), ProtocolError::Truncated);
}
