use rune_wallet::address::{account_to_p2pkh_address, address_validation, p2pkh_address_of_pubkey,
    Address};
use rune_wallet::combined_txn::CombinedTransactionRequest;
use rune_wallet::config::{keyname_for_network, Config};
use rune_wallet::encoding::{hex_decode, hex_string};
use rune_wallet::index::{get_etching, get_rune_balances_for_output, init_rune,
    set_beginning_block, sync_decision, RuneIndex, SyncAction, FINAL_HEIGHT, FIRST_HEIGHT};
use rune_wallet::manager::UtxoManager;
use rune_wallet::multi_sender_txn::MultiSendTransactionArgument;
use rune_wallet::orchestrator::{check_balance_step, fee_from_percentiles, reconcile_utxos,
    split_amount, FetchedUtxo, WithdrawStep};
use rune_wallet::runestone::RuneTransferArgs;
use rune_wallet::signer::{apply_signature, legacy_sighash, script_sig_for, sec1_to_der, txid_hex};
use rune_wallet::transaction_handler::TransactionType;
use rune_wallet::txmodel::{mock_signature, serialize_transaction, transaction_vsize, Transaction};
use rune_wallet::types::{Account, MemoryIds, Network, OutPoint, RuneId, RunicUtxo, Utxo};
use rune_wallet::utils::{account_to_derivation_path, generate_addresses_from_principal,
    principal_to_subaccount, subaccount_with_num};

fn txid_bytes(tag: u8) -> Vec<u8> {
    let mut v = vec![0u8; 32];
    v[0] = tag;
    v
}

fn utxo(tag: u8, vout: u32, value: u64) -> Utxo {
    Utxo { outpoint: OutPoint { txid: txid_bytes(tag), vout }, value, height: 0 }
}

fn runic(tag: u8, vout: u32, value: u64, balance: u128) -> RunicUtxo {
    RunicUtxo { utxo: utxo(tag, vout, value), balance }
}

fn addr_for(seed: u8) -> (Address, String) {
    let pubkey = vec![seed; 33];
    let a = p2pkh_address_of_pubkey(Network::Regtest, &pubkey);
    let text = a.text.clone();
    (a, text)
}

const RUNE: RuneId = RuneId { block: 840000, tx: 1 };

#[test]
fn plain_send_exact_change() {
    // a single 200 000-sat input; send 50 000; the sender pays the fee
    let mut manager = UtxoManager::new();
    let (from, from_text) = addr_for(1);
    let (to, _) = addr_for(2);
    manager.record_bitcoin(&from_text, vec![utxo(1, 0, 200_000)]);
    let account = Account { owner: vec![1, 2, 3], subaccount: None };
    let r = rune_wallet::transaction::transfer(
        &mut manager,
        &from_text,
        account,
        from,
        to,
        50_000,
        true,
        1000,
    );
    match r {
        Ok(TransactionType::Bitcoin { txn, utxos, .. }) => {
            // one 148-byte input, two 34-byte outputs, 10 bytes of framing
            assert_eq!(transaction_vsize(&mock_signature(&txn)), 226);
            assert_eq!(utxos.len(), 1);
            assert_eq!(txn.input.len(), 1);
            assert_eq!(txn.output.len(), 2);
            assert_eq!(txn.output[0].value, 50_000);
            assert_eq!(txn.output[1].value, 200_000 - 50_000 - 226);
            // conservation: inputs == outputs + fee
            let out_sum: u64 = txn.output.iter().map(|o| o.value).sum();
            assert_eq!(200_000, out_sum + 226);
        },
        _ => panic!("expected a plain send"),
    }
    assert_eq!(manager.balance_bitcoin(&from_text), 0);
}

#[test]
fn plain_send_dust_remainder_absorbed() {
    // one 50 500-sat input; send 50 000; the 308-sat remainder is dust and
    // is absorbed by the fee
    let mut manager = UtxoManager::new();
    let (from, from_text) = addr_for(1);
    let (to, _) = addr_for(2);
    manager.record_bitcoin(&from_text, vec![utxo(1, 0, 50_500)]);
    let account = Account { owner: vec![1], subaccount: None };
    let r = rune_wallet::transaction::transfer(
        &mut manager,
        &from_text,
        account,
        from,
        to,
        50_000,
        true,
        1000,
    );
    match r {
        Ok(TransactionType::Bitcoin { txn, .. }) => {
            assert_eq!(txn.output.len(), 1);
            assert_eq!(txn.output[0].value, 50_000);
            // one input, one output: 192 virtual bytes, fee 192, 308 absorbed
            assert_eq!(transaction_vsize(&mock_signature(&txn)), 192);
            let out_sum: u64 = txn.output.iter().map(|o| o.value).sum();
            assert_eq!(50_500, out_sum + 192 + 308);
        },
        _ => panic!("expected a plain send"),
    }
}

#[test]
fn plain_send_shortfall_rolls_back() {
    let mut manager = UtxoManager::new();
    let (from, from_text) = addr_for(1);
    let (to, _) = addr_for(2);
    manager.record_bitcoin(&from_text, vec![utxo(1, 0, 10_000), utxo(2, 0, 20_000)]);
    let account = Account { owner: vec![1], subaccount: None };
    let r = rune_wallet::transaction::transfer(
        &mut manager,
        &from_text,
        account,
        from,
        to,
        100_000,
        true,
        1000,
    );
    assert!(matches!(r, Err(100_000)));
    // the pool holds its outputs again
    assert_eq!(manager.balance_bitcoin(&from_text), 30_000);
}

#[test]
fn rune_transfer_with_change() {
    // two runic inputs of balances 100 and 150; transfer 200: rune change
    // stays with the sender, so the runestone and both postage outputs
    // appear
    let mut manager = UtxoManager::new();
    let (sender, sender_text) = addr_for(1);
    let (receiver, receiver_text) = addr_for(2);
    manager.record_runic(
        &sender_text,
        &RUNE,
        vec![runic(1, 0, 546, 100), runic(2, 0, 546, 150)],
    );
    manager.record_bitcoin(&sender_text, vec![utxo(3, 0, 100_000)]);
    assert_eq!(manager.balance_rune(&sender_text, &RUNE), 250);
    let r = rune_wallet::runestone::transfer(
        &mut manager,
        RuneTransferArgs {
            runeid: RUNE,
            amount: 200,
            sender_addr: &sender_text,
            receiver_addr: &receiver_text,
            sender_account: Account { owner: vec![1], subaccount: None },
            receiver_account: Account { owner: vec![1], subaccount: None },
            sender_address: sender,
            receiver_address: receiver,
            fee_per_vbytes: 1000,
            paid_by_sender: true,
            postage: None,
        },
    );
    match r {
        Ok(TransactionType::Runestone { txn, fee, runic_utxos, fee_utxos, .. }) => {
            assert_eq!(runic_utxos.len(), 2);
            assert_eq!(fee_utxos.len(), 1);
            assert_eq!(txn.output.len(), 4);
            // the runestone: OP_RETURN, OP_PUSHNUM_13, one push of the
            // edict body
            assert_eq!(
                txn.output[0].script_pubkey,
                vec![0x6a, 0x5d, 8, 0, 192, 162, 51, 1, 200, 1, 2],
            );
            assert_eq!(txn.output[0].value, 0);
            assert_eq!(txn.output[1].value, 10_000);
            assert_eq!(txn.output[2].value, 10_000);
            assert_eq!(fee, 576);
            // postage needed 20 000, runic inputs carry 1092, fee inputs
            // bring the rest plus the fee
            assert_eq!(txn.output[3].value, 100_000 - 576 - (20_000 - 1092));
            let in_sum: u64 = 546 + 546 + 100_000;
            let out_sum: u64 = txn.output.iter().map(|o| o.value).sum();
            assert_eq!(in_sum, out_sum + fee);
        },
        _ => panic!("expected a rune transfer"),
    }
    assert_eq!(manager.balance_rune(&sender_text, &RUNE), 0);
}

#[test]
fn rune_transfer_exact_balance_no_change() {
    // a single runic input of exactly the transferred balance: no runestone
    // output at all
    let mut manager = UtxoManager::new();
    let (sender, sender_text) = addr_for(1);
    let (receiver, receiver_text) = addr_for(2);
    manager.record_runic(&sender_text, &RUNE, vec![runic(1, 0, 546, 200)]);
    manager.record_bitcoin(&sender_text, vec![utxo(3, 0, 50_000)]);
    let r = rune_wallet::runestone::transfer(
        &mut manager,
        RuneTransferArgs {
            runeid: RUNE,
            amount: 200,
            sender_addr: &sender_text,
            receiver_addr: &receiver_text,
            sender_account: Account { owner: vec![1], subaccount: None },
            receiver_account: Account { owner: vec![1], subaccount: None },
            sender_address: sender,
            receiver_address: receiver,
            fee_per_vbytes: 1000,
            paid_by_sender: true,
            postage: None,
        },
    );
    match r {
        Ok(TransactionType::Runestone { txn, fee, .. }) => {
            assert_eq!(txn.output.len(), 2);
            // no OP_RETURN: the single postage output takes the whole
            // balance by protocol convention
            assert_eq!(txn.output[0].value, 10_000);
            assert_ne!(txn.output[0].script_pubkey[0], 0x6a);
            assert_eq!(fee, 374);
            assert_eq!(txn.output[1].value, 50_000 - 374 - (10_000 - 546));
        },
        _ => panic!("expected a rune transfer"),
    }
}

#[test]
fn rune_shortfall_restores_both_pools() {
    let mut manager = UtxoManager::new();
    let (sender, sender_text) = addr_for(1);
    let (receiver, receiver_text) = addr_for(2);
    manager.record_runic(&sender_text, &RUNE, vec![runic(1, 0, 546, 100)]);
    // no bitcoin at all: the fee draw must fail and the runic pool must be
    // restored
    let r = rune_wallet::runestone::transfer(
        &mut manager,
        RuneTransferArgs {
            runeid: RUNE,
            amount: 50,
            sender_addr: &sender_text,
            receiver_addr: &receiver_text,
            sender_account: Account { owner: vec![1], subaccount: None },
            receiver_account: Account { owner: vec![1], subaccount: None },
            sender_address: sender,
            receiver_address: receiver,
            fee_per_vbytes: 1000,
            paid_by_sender: true,
            postage: None,
        },
    );
    assert!(matches!(r, Err((0, 0))));
    assert_eq!(manager.balance_rune(&sender_text, &RUNE), 100);
}

#[test]
fn two_sender_odd_amount_split() {
    // the orchestrator splits 101 as 51 to the first, 50 to the second
    assert_eq!(split_amount(101), (51, 50));
    assert_eq!(split_amount(100), (50, 50));

    // the builder splits an odd fee with the extra satoshi on the second
    // sender: fee 9 becomes 4 and 5
    let mut manager = UtxoManager::new();
    let (a0, t0) = addr_for(1);
    let (a1, t1) = addr_for(2);
    let (recv, _) = addr_for(3);
    manager.record_bitcoin(&t0, vec![utxo(1, 0, 10_000)]);
    manager.record_bitcoin(&t1, vec![utxo(2, 0, 20_000)]);
    let r = rune_wallet::multi_sender_txn::build_transaction_with_fee(
        &mut manager,
        &t0,
        &t1,
        &a0,
        &a1,
        &recv,
        51,
        50,
        9,
        true,
    );
    match r {
        Ok((txn, utxos0, utxos1)) => {
            assert_eq!(utxos0.len(), 1);
            assert_eq!(utxos1.len(), 1);
            assert_eq!(txn.output.len(), 3);
            assert_eq!(txn.output[0].value, 101);
            assert_eq!(txn.output[1].value, 10_000 - 51 - 4);
            assert_eq!(txn.output[2].value, 20_000 - 50 - 5);
        },
        Err(_) => panic!("expected a two-sender build"),
    }
}

#[test]
fn two_sender_transfer_converges() {
    let mut manager = UtxoManager::new();
    let (a0, t0) = addr_for(1);
    let (a1, t1) = addr_for(2);
    let (recv, _) = addr_for(3);
    manager.record_bitcoin(&t0, vec![utxo(1, 0, 10_000)]);
    manager.record_bitcoin(&t1, vec![utxo(2, 0, 20_000)]);
    let r = rune_wallet::multi_sender_txn::transfer(
        &mut manager,
        MultiSendTransactionArgument {
            addr0: &t0,
            addr1: &t1,
            address0: a0,
            address1: a1,
            receiver: recv,
            account0: Account { owner: vec![1], subaccount: None },
            account1: Account { owner: vec![2], subaccount: None },
            amount0: 51,
            amount1: 50,
            fee_per_vbytes: 1000,
            paid_by_sender: true,
        },
    );
    match r {
        Ok(TransactionType::LegoBitcoin { txn, fee, .. }) => {
            // two inputs and three outputs: 408 virtual bytes
            assert_eq!(fee, 408);
            assert_eq!(txn.output[0].value, 101);
            // an even fee splits evenly
            assert_eq!(txn.output[1].value, 10_000 - 51 - 204);
            assert_eq!(txn.output[2].value, 20_000 - 50 - 204);
            let out_sum: u64 = txn.output.iter().map(|o| o.value).sum();
            assert_eq!(30_000, out_sum + fee);
        },
        _ => panic!("expected a two-sender send"),
    }
}

#[test]
fn combined_transfer_receiver_pays_fee() {
    // a rune leg of 50 out of 80, a 25 000-sat bitcoin leg, the receiver
    // funds fee and missing postage
    let mut manager = UtxoManager::new();
    let (sender, sender_text) = addr_for(1);
    let (receiver, receiver_text) = addr_for(2);
    manager.record_runic(&sender_text, &RUNE, vec![runic(1, 0, 546, 80)]);
    manager.record_bitcoin(&sender_text, vec![utxo(2, 0, 30_000)]);
    manager.record_bitcoin(&receiver_text, vec![utxo(3, 0, 100_000)]);
    let r = rune_wallet::combined_txn::transfer(
        &mut manager,
        CombinedTransactionRequest {
            from_addr: &sender_text,
            receiver_addr: &receiver_text,
            sender_address: sender,
            receiver_address: receiver,
            runeid: RUNE,
            rune_amount: 50,
            btc_amount: 25_000,
            sender_account: Account { owner: vec![1], subaccount: None },
            receiver_account: Account { owner: vec![2], subaccount: None },
            postage: None,
            fee_per_vbytes: 1000,
            paid_by_sender: false,
        },
    );
    match r {
        Ok(TransactionType::Combined { txn, fee, runic_utxos, btc_utxos, fee_utxos, .. }) => {
            assert_eq!(runic_utxos.len(), 1);
            assert_eq!(btc_utxos.len(), 1);
            assert_eq!(fee_utxos.len(), 1);
            assert_eq!(txn.output.len(), 6);
            // runestone, sender rune change postage, receiver rune postage
            assert_eq!(txn.output[0].value, 0);
            assert_eq!(txn.output[0].script_pubkey[0], 0x6a);
            assert_eq!(txn.output[1].value, 10_000);
            assert_eq!(txn.output[2].value, 10_000);
            // the bitcoin payment, the sender's change, the fee payer's
            // change
            assert_eq!(txn.output[3].value, 25_000);
            assert_eq!(txn.output[4].value, 30_000 - 25_000);
            assert_eq!(fee, 643);
            assert_eq!(txn.output[5].value, 100_000 - fee - (20_000 - 546));
            let in_sum: u64 = 546 + 30_000 + 100_000;
            let out_sum: u64 = txn.output.iter().map(|o| o.value).sum();
            assert_eq!(in_sum, out_sum + fee);
        },
        _ => panic!("expected a combined transfer"),
    }
    // the whole runic pool was drained
    assert_eq!(manager.balance_rune(&sender_text, &RUNE), 0);
}

#[test]
fn serialization_matches_reference_encoding() {
    // the library's serialization, virtual size and identifier agree with
    // the reference implementation on the same transaction
    let txn = Transaction {
        version: 2,
        lock_time: 0,
        input: vec![rune_wallet::txmodel::TxIn {
            previous_output: OutPoint { txid: txid_bytes(7), vout: 3 },
            script_sig: vec![1, 2, 3],
            sequence: 0xffffffff,
        }],
        output: vec![rune_wallet::txmodel::TxOut { value: 1234, script_pubkey: vec![0x51] }],
    };
    let ours = serialize_transaction(&txn);

    let mut txid = [0u8; 32];
    txid[0] = 7;
    let reference = bitcoin::Transaction {
        version: bitcoin::transaction::Version(2),
        lock_time: bitcoin::absolute::LockTime::ZERO,
        input: vec![bitcoin::TxIn {
            previous_output: bitcoin::OutPoint {
                txid: bitcoin::Txid::from_raw_hash(
                    <bitcoin::hashes::sha256d::Hash as bitcoin::hashes::Hash>::from_byte_array(
                        txid,
                    ),
                ),
                vout: 3,
            },
            script_sig: bitcoin::ScriptBuf::from_bytes(vec![1, 2, 3]),
            sequence: bitcoin::Sequence::MAX,
            witness: bitcoin::Witness::new(),
        }],
        output: vec![bitcoin::TxOut {
            value: bitcoin::Amount::from_sat(1234),
            script_pubkey: bitcoin::ScriptBuf::from_bytes(vec![0x51]),
        }],
    };
    assert_eq!(ours, bitcoin::consensus::serialize(&reference));
    assert_eq!(transaction_vsize(&txn), reference.vsize());
    assert_eq!(txid_hex(&txn), reference.compute_txid().to_string());
}

#[test]
fn address_generation_and_validation_round_trip() {
    let pubkey = vec![5u8; 33];
    let text = account_to_p2pkh_address(Network::Mainnet, &pubkey);
    let validated = address_validation(&text, Network::Mainnet).expect("generated address");
    assert_eq!(validated.prefix, 0x00);
    assert_eq!(validated.text, text);
    // the same derivation gives the same address
    assert_eq!(account_to_p2pkh_address(Network::Mainnet, &pubkey), text);
    // the generated hash is RIPEMD-160 of SHA-256 of the key
    let built = p2pkh_address_of_pubkey(Network::Mainnet, &pubkey);
    assert_eq!(built.hash, validated.hash);
    // a testnet address does not validate on mainnet
    let tn = account_to_p2pkh_address(Network::Testnet, &pubkey);
    assert!(address_validation(&tn, Network::Mainnet).is_err());
    assert!(address_validation("not an address", Network::Mainnet).is_err());
}

#[test]
fn sec1_to_der_strips_and_pads() {
    // a high first byte gets a zero prepended; leading zeros are dropped
    let mut sig = vec![0u8; 64];
    sig[0] = 0x80;
    sig[31] = 1;
    sig[32] = 0;
    sig[33] = 0x7f;
    let der = sec1_to_der(&sig);
    // r keeps 33 bytes with the pad, s drops its single leading zero
    assert_eq!(der[0], 0x30);
    assert_eq!(der[1] as usize, der.len() - 2);
    assert_eq!(der[2], 0x02);
    assert_eq!(der[3], 33);
    assert_eq!(der[4], 0);
    assert_eq!(der[5], 0x80);
    let s_len_at = 4 + 33 + 1;
    assert_eq!(der[s_len_at] as usize, 31);
    assert_eq!(der[s_len_at + 1], 0x7f);
}

#[test]
fn sighash_and_script_sig_assembly() {
    let mut txn = Transaction {
        version: 2,
        lock_time: 0,
        input: vec![rune_wallet::txmodel::TxIn {
            previous_output: OutPoint { txid: txid_bytes(9), vout: 0 },
            script_sig: Vec::new(),
            sequence: 0xffffffff,
        }],
        output: vec![rune_wallet::txmodel::TxOut { value: 5000, script_pubkey: vec![0x51] }],
    };
    let spk = vec![0x76, 0xa9];
    let digest = legacy_sighash(&txn, 0, &spk);
    assert_eq!(digest.len(), 32);
    // the digest commits to the locking script
    assert_ne!(digest, legacy_sighash(&txn, 0, &vec![0x52]));
    let mut sig = sec1_to_der(&vec![1u8; 64]);
    sig.push(0x01);
    let script = script_sig_for(&sig, &vec![3u8; 33]);
    assert_eq!(script[0] as usize, sig.len());
    apply_signature(&mut txn, 0, script);
    assert!(!txn.input[0].script_sig.is_empty());
}

#[test]
fn manager_take_record_and_balances() {
    let mut manager = UtxoManager::new();
    let (_, t) = addr_for(1);
    manager.record_bitcoin(&t, vec![utxo(1, 0, 100), utxo(2, 0, 200)]);
    assert_eq!(manager.balance_bitcoin(&t), 300);
    // a re-submitted outpoint is deduplicated
    manager.record_bitcoin(&t, vec![utxo(1, 0, 100)]);
    assert_eq!(manager.balance_bitcoin(&t), 300);
    // an output held as runic is never also held as plain
    manager.record_runic(&t, &RUNE, vec![runic(3, 0, 546, 10)]);
    manager.record_bitcoin(&t, vec![utxo(3, 0, 546)]);
    assert_eq!(manager.balance_bitcoin(&t), 300);
    assert_eq!(manager.balance_rune(&t, &RUNE), 10);
    assert_eq!(manager.carried_value(&t, &RUNE), 546);
    // take removes, record returns
    let taken = manager.take_bitcoin(&t).expect("one output");
    assert_eq!(manager.balance_bitcoin(&t), 300 - taken.value);
    manager.record_bitcoin(&t, vec![taken]);
    assert_eq!(manager.balance_bitcoin(&t), 300);
    let runes = manager.all_runes_with_balances(&t);
    assert_eq!(runes.len(), 1);
    assert_eq!(runes[0].0, RUNE);
    assert_eq!(runes[0].1, 10);
    assert!(manager.take_runic(&t, &RUNE).is_some());
    assert!(manager.take_runic(&t, &RUNE).is_none());
}

#[test]
fn reconcile_routes_by_rune_balance() {
    let mut manager = UtxoManager::new();
    let (_, t) = addr_for(1);
    let fetched = vec![
        FetchedUtxo { utxo: utxo(1, 0, 700), runes: Vec::new() },
        FetchedUtxo { utxo: utxo(2, 0, 546), runes: vec![(RUNE, 25)] },
    ];
    reconcile_utxos(&mut manager, &t, fetched);
    assert_eq!(manager.balance_bitcoin(&t), 700);
    assert_eq!(manager.balance_rune(&t, &RUNE), 25);
    // a second pass changes nothing
    let again = vec![
        FetchedUtxo { utxo: utxo(1, 0, 700), runes: Vec::new() },
        FetchedUtxo { utxo: utxo(2, 0, 546), runes: vec![(RUNE, 25)] },
    ];
    reconcile_utxos(&mut manager, &t, again);
    assert_eq!(manager.balance_bitcoin(&t), 700);
    assert_eq!(manager.balance_rune(&t, &RUNE), 25);
}

#[test]
fn orchestrator_decisions() {
    assert!(matches!(check_balance_step(10, 5, false), WithdrawStep::Proceed));
    assert!(matches!(
        check_balance_step(4, 5, false),
        WithdrawStep::Synchronize { target: 5 }
    ));
    assert!(matches!(check_balance_step(4, 5, true), WithdrawStep::Insufficient));
    assert_eq!(fee_from_percentiles(&Vec::new()), 2000);
    let mut p = vec![0u64; 100];
    p[50] = 7777;
    assert_eq!(fee_from_percentiles(&p), 7777);
}

#[test]
fn hex_and_subaccounts() {
    let bytes = vec![0x00u8, 0xff, 0x10];
    let h = hex_string(&bytes);
    assert_eq!(h, "00ff10");
    assert_eq!(hex_decode("00ff10"), Some(bytes));
    assert_eq!(hex_decode("0g"), None);
    assert_eq!(hex_decode("abc"), None);

    let sub = principal_to_subaccount(&vec![1, 2, 3]);
    assert_eq!(sub.len(), 32);
    // deterministic
    assert_eq!(sub, principal_to_subaccount(&vec![1, 2, 3]));
    let numbered = subaccount_with_num(&vec![9, 9], 5);
    assert_eq!(numbered.len(), 32);
    assert_ne!(numbered, subaccount_with_num(&vec![9, 9], 6));

    let account = Account { owner: vec![1, 2], subaccount: Some(sub.clone()) };
    let path = account_to_derivation_path(&account);
    assert_eq!(path.len(), 2);
    assert_eq!(path[0], vec![1, 2]);
    assert_eq!(path[1], sub);

    let addrs = generate_addresses_from_principal(
        &vec![9, 9],
        &vec![1, 2, 3],
        &vec![4u8; 33],
        Network::Regtest,
    );
    assert_eq!(addrs.icrc1.owner, vec![9, 9]);
    assert_eq!(addrs.icrc1.subaccount, Some(principal_to_subaccount(&vec![1, 2, 3])));
    assert_eq!(addrs.bitcoin, account_to_p2pkh_address(Network::Regtest, &vec![4u8; 33]));
}

#[test]
fn config_and_memory_regions() {
    assert_eq!(keyname_for_network(Network::Mainnet), "key_1");
    assert_eq!(keyname_for_network(Network::Testnet), "test_key_1");
    assert_eq!(keyname_for_network(Network::Regtest), "dfx_test_key");
    let mut config = Config::new();
    config.bitcoin_network = Some(Network::Regtest);
    config.keyname = Some(keyname_for_network(Network::Regtest));
    assert_eq!(config.bitcoin_network(), Network::Regtest);
    assert_eq!(config.ecdsakeyid().name, "dfx_test_key");
    assert_eq!(MemoryIds::Config.region_number(), 0);
    assert_eq!(MemoryIds::Runic.region_number(), 1);
    assert_eq!(MemoryIds::Bitcoin.region_number(), 2);
}

#[test]
fn rune_index_genesis() {
    let mut index = RuneIndex::new();
    let hash = "00000000000000000000000000000000000000000000000000000000000000aa";
    assert!(init_rune(&mut index, hash));
    assert_eq!(index.height, FIRST_HEIGHT);
    // the genesis etching resolves to the genesis rune
    let zero_txid = vec![0u8; 32];
    let etched = get_etching(&index, &zero_txid).expect("genesis etching");
    assert_eq!(etched.rune, rune_wallet::index::GENESIS_RUNE);
    assert_eq!(etched.spacers, 128);
    assert!(get_etching(&index, &txid_bytes(5)).is_none());
    // an unknown outpoint carries no balances
    let op = OutPoint { txid: txid_bytes(5), vout: 0 };
    assert_eq!(get_rune_balances_for_output(&index, &op).len(), 0);
    // a bad hash anchors nothing
    let mut other = RuneIndex::new();
    assert!(!set_beginning_block(&mut other, "zz"));
    assert_eq!(other.height, 0);
}

#[test]
fn sync_decisions() {
    assert_eq!(sync_decision(FINAL_HEIGHT, FINAL_HEIGHT + 10, 4, true), SyncAction::Done);
    assert_eq!(sync_decision(FIRST_HEIGHT, FIRST_HEIGHT + 3, 4, true), SyncAction::Wait);
    assert_eq!(sync_decision(FIRST_HEIGHT, FIRST_HEIGHT + 10, 4, false), SyncAction::Reorg);
    assert_eq!(sync_decision(FIRST_HEIGHT, FIRST_HEIGHT + 10, 4, true), SyncAction::IndexNext);
}

#[test]
fn combined_transfer_sender_pays_fee() {
    // the sender's plain pool funds the bitcoin leg, the fee and the
    // missing postage; no fee inputs are drawn from the receiver
    let mut manager = UtxoManager::new();
    let (sender, sender_text) = addr_for(1);
    let (receiver, receiver_text) = addr_for(2);
    manager.record_runic(&sender_text, &RUNE, vec![runic(1, 0, 546, 80)]);
    manager.record_bitcoin(&sender_text, vec![utxo(2, 0, 100_000)]);
    let r = rune_wallet::combined_txn::transfer(
        &mut manager,
        CombinedTransactionRequest {
            from_addr: &sender_text,
            receiver_addr: &receiver_text,
            sender_address: sender,
            receiver_address: receiver,
            runeid: RUNE,
            rune_amount: 50,
            btc_amount: 25_000,
            sender_account: Account { owner: vec![1], subaccount: None },
            receiver_account: Account { owner: vec![2], subaccount: None },
            postage: None,
            fee_per_vbytes: 1000,
            paid_by_sender: true,
        },
    );
    match r {
        Ok(TransactionType::Combined { txn, fee, fee_utxos, .. }) => {
            assert_eq!(fee_utxos.len(), 0);
            // runestone, two postage outputs, the payment, one change
            assert_eq!(txn.output.len(), 5);
            assert_eq!(txn.output[3].value, 25_000);
            assert_eq!(txn.output[4].value, 100_000 - 25_000 - fee - (20_000 - 546));
            let in_sum: u64 = 546 + 100_000;
            let out_sum: u64 = txn.output.iter().map(|o| o.value).sum();
            assert_eq!(in_sum, out_sum + fee);
        },
        _ => panic!("expected a combined transfer"),
    }
}

#[test]
fn combined_sender_pays_shortfall_names_requirement() {
    // the sender's plain pool cannot cover payment, fee and postage: the
    // error names the full per-address requirement and the pools are
    // exactly as before
    let mut manager = UtxoManager::new();
    let (sender, sender_text) = addr_for(1);
    let (receiver, receiver_text) = addr_for(2);
    manager.record_runic(&sender_text, &RUNE, vec![runic(1, 0, 546, 80)]);
    manager.record_bitcoin(&sender_text, vec![utxo(2, 0, 10_000)]);
    let r = rune_wallet::combined_txn::transfer(
        &mut manager,
        CombinedTransactionRequest {
            from_addr: &sender_text,
            receiver_addr: &receiver_text,
            sender_address: sender,
            receiver_address: receiver,
            runeid: RUNE,
            rune_amount: 50,
            btc_amount: 25_000,
            sender_account: Account { owner: vec![1], subaccount: None },
            receiver_account: Account { owner: vec![2], subaccount: None },
            postage: None,
            fee_per_vbytes: 1000,
            paid_by_sender: true,
        },
    );
    // at the first iteration the fee is zero, so the requirement is the
    // payment plus the postage the runic input does not carry
    assert!(matches!(r, Err((50, 44_454, 0))));
    assert_eq!(manager.balance_rune(&sender_text, &RUNE), 80);
    assert_eq!(manager.balance_bitcoin(&sender_text), 10_000);
}
