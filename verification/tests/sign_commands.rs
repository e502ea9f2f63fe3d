use refineid::apdu::ApduClass;
use refineid::sign::commands::{
    DecipherAlgRef, ExternalHashValue, HashAlgorithm, HashBlock, HashBlockError,
    IntermediateHashState, MseSet, MseSetTemplate, PsoComputeDigitalSignature, PsoHash, PsoHashMode,
    SignatureAlgRef, SignatureAlgorithm, CRDO_TAG_ALG_REF, CRDO_TAG_KEY_REF, CRDO_VALUE_LEN_BYTE,
    HASH_BLOCK_MAX_LEN, PSO_HASH_TAG_FINAL_BLOCK, PSO_HASH_TAG_HASH_VALUE,
};
use refineid::sign::KeyRef;

#[test]
fn signature_alg_ref_sha256_rsa_pkcs1_is_42h() {
    let expected = (HashAlgorithm::Sha256.high_nibble() << 4)
        | SignatureAlgorithm::RsaPkcs1V1_5.low_nibble();
    assert_eq!(SignatureAlgRef::sha256_rsa_pkcs1_v1_5().as_byte(), expected);
}

#[test]
fn mse_set_dst_serialises_per_table_5_dst_row() {
    let apdu = MseSet {
        class: ApduClass::Plain,
        template: MseSetTemplate::DigitalSignature {
            alg_ref: SignatureAlgRef::sha256_rsa_pkcs1_v1_5(),
            key_ref: KeyRef::Auth,
        },
    }
    .into_apdu();
    let expected: Vec<u8> = vec![
        ApduClass::Plain.as_byte(),
        MseSet::INS,
        MseSet::P1_SET,
        MseSetTemplate::DigitalSignature {
            alg_ref: SignatureAlgRef::sha256_rsa_pkcs1_v1_5(),
            key_ref: KeyRef::Auth,
        }
        .p2(),
        6,
        CRDO_TAG_ALG_REF,
        CRDO_VALUE_LEN_BYTE,
        SignatureAlgRef::sha256_rsa_pkcs1_v1_5().as_byte(),
        CRDO_TAG_KEY_REF,
        CRDO_VALUE_LEN_BYTE,
        KeyRef::Auth.as_u8(),
    ];
    assert_eq!(apdu.as_bytes(), expected.as_slice());
}

#[test]
fn mse_set_ct_rsa_serialises_per_table_5_b8_rsa_row() {
    let apdu = MseSet {
        class: ApduClass::Plain,
        template: MseSetTemplate::DeciphermentRsa {
            alg_ref: DecipherAlgRef::RsassaPkcs1V1_5,
            key_ref: KeyRef::Auth,
        },
    }
    .into_apdu();
    let expected: Vec<u8> = vec![
        ApduClass::Plain.as_byte(),
        MseSet::INS,
        MseSet::P1_SET,
        MseSetTemplate::DeciphermentRsa {
            alg_ref: DecipherAlgRef::RsassaPkcs1V1_5,
            key_ref: KeyRef::Auth,
        }
        .p2(),
        6,
        CRDO_TAG_ALG_REF,
        CRDO_VALUE_LEN_BYTE,
        DecipherAlgRef::RsassaPkcs1V1_5.as_byte(),
        CRDO_TAG_KEY_REF,
        CRDO_VALUE_LEN_BYTE,
        KeyRef::Auth.as_u8(),
    ];
    assert_eq!(apdu.as_bytes(), expected.as_slice());
}

#[test]
fn mse_set_ct_elc_omits_alg_ref_crdo_per_table_5_b8_elc_row() {
    let apdu = MseSet {
        class: ApduClass::Plain,
        template: MseSetTemplate::DeciphermentElc {
            key_ref: KeyRef::Auth,
        },
    }
    .into_apdu();
    let expected: Vec<u8> = vec![
        ApduClass::Plain.as_byte(),
        MseSet::INS,
        MseSet::P1_SET,
        MseSetTemplate::DeciphermentElc {
            key_ref: KeyRef::Auth,
        }
        .p2(),
        3,
        CRDO_TAG_KEY_REF,
        CRDO_VALUE_LEN_BYTE,
        KeyRef::Auth.as_u8(),
    ];
    assert_eq!(apdu.as_bytes(), expected.as_slice());
}

#[test]
fn mse_set_hashing_template_uses_aa_p2_and_alg_crdo_only() {
    let apdu = MseSet {
        class: ApduClass::Plain,
        template: MseSetTemplate::Hashing {
            alg_ref: SignatureAlgRef::sha256_rsa_pkcs1_v1_5(),
        },
    }
    .into_apdu();
    let expected: Vec<u8> = vec![
        ApduClass::Plain.as_byte(),
        MseSet::INS,
        MseSet::P1_SET,
        MseSetTemplate::Hashing {
            alg_ref: SignatureAlgRef::sha256_rsa_pkcs1_v1_5(),
        }
        .p2(),
        3,
        CRDO_TAG_ALG_REF,
        CRDO_VALUE_LEN_BYTE,
        SignatureAlgRef::sha256_rsa_pkcs1_v1_5().as_byte(),
    ];
    assert_eq!(apdu.as_bytes(), expected.as_slice());
}

#[test]
fn mse_set_chained_first_class_carries_10h() {
    let apdu = MseSet {
        class: ApduClass::ChainedFirst,
        template: MseSetTemplate::DigitalSignature {
            alg_ref: SignatureAlgRef::sha256_rsa_pkcs1_v1_5(),
            key_ref: KeyRef::Sign,
        },
    }
    .into_apdu();
    assert_eq!(apdu.as_bytes()[0], ApduClass::ChainedFirst.as_byte());
}

#[test]
fn pso_hash_external_sha256_serialises_per_spec_3_7_2_3() {
    const SHA256_FIXTURE_FILL: u8 = 0xAB;
    let hash_fixture = [SHA256_FIXTURE_FILL; 32];
    let apdu = PsoHash {
        class: ApduClass::Plain,
        mode: PsoHashMode::External {
            hash: ExternalHashValue::Sha256(hash_fixture),
        },
    }
    .into_apdu();
    let body_len_bytes: u8 =
        2 + u8::try_from(hash_fixture.len()).expect("32-byte SHA-256 hash fits in u8");
    let mut expected: Vec<u8> = vec![
        ApduClass::Plain.as_byte(),
        PsoHash::INS,
        PsoHash::P1,
        PsoHashMode::External {
            hash: ExternalHashValue::Sha256(hash_fixture),
        }
        .p2(),
        body_len_bytes,
        PSO_HASH_TAG_HASH_VALUE,
        ExternalHashValue::Sha256(hash_fixture).len_byte(),
    ];
    expected.extend_from_slice(&hash_fixture);
    assert_eq!(apdu.as_bytes(), expected.as_slice());
}

#[test]
fn pso_hash_entirely_by_card_non_final_uses_p2_80_and_raw_block() {
    const BLOCK_FILL: u8 = 0xCD;
    let block_bytes = vec![BLOCK_FILL; 64];
    let block = HashBlock::new(block_bytes.clone()).expect("64-byte block is within the cap");
    let apdu = PsoHash {
        class: ApduClass::Plain,
        mode: PsoHashMode::EntirelyByCardBlock { block },
    }
    .into_apdu();
    let expected: Vec<u8> = {
        let mut v = vec![
            ApduClass::Plain.as_byte(),
            PsoHash::INS,
            PsoHash::P1,
            PsoHashMode::EntirelyByCardBlock {
                block: HashBlock::new(block_bytes.clone())
                    .expect("64-byte block is within the cap"),
            }
            .p2(),
            u8::try_from(block_bytes.len()).expect("64-byte block length fits in u8"),
        ];
        v.extend_from_slice(&block_bytes);
        v
    };
    assert_eq!(apdu.as_bytes(), expected.as_slice());
}

#[test]
fn pso_hash_entirely_by_card_final_wraps_block_in_80_l_tlv() {
    const BLOCK_FILL: u8 = 0xEF;
    let block_bytes = vec![BLOCK_FILL; 7];
    let final_block =
        HashBlock::new(block_bytes.clone()).expect("7-byte block is within the cap");
    let apdu = PsoHash {
        class: ApduClass::Plain,
        mode: PsoHashMode::EntirelyByCardFinal { final_block },
    }
    .into_apdu();
    let body_len_bytes = 2 + block_bytes.len();
    let mut expected = vec![
        ApduClass::Plain.as_byte(),
        PsoHash::INS,
        PsoHash::P1,
        PsoHashMode::EntirelyByCardFinal {
            final_block: HashBlock::new(block_bytes.clone())
                .expect("7-byte block is within the cap"),
        }
        .p2(),
        u8::try_from(body_len_bytes).expect("9-byte TLV body fits in u8"),
        PSO_HASH_TAG_FINAL_BLOCK,
        u8::try_from(block_bytes.len()).expect("7-byte block length fits in u8"),
    ];
    expected.extend_from_slice(&block_bytes);
    assert_eq!(apdu.as_bytes(), expected.as_slice());
}

#[test]
fn pso_hash_partially_by_card_carries_two_concatenated_tlvs() {
    const INTERMEDIATE_FILL: u8 = 0x11;
    const COUNTER_FILL: u8 = 0x22;
    const FINAL_FILL: u8 = 0x33;
    let intermediate_fixture = [INTERMEDIATE_FILL; 32];
    let counter_fixture = [COUNTER_FILL; 8];
    let final_bytes = vec![FINAL_FILL; 5];

    let state = IntermediateHashState::Sha256 {
        intermediate: intermediate_fixture,
        counter: counter_fixture,
    };
    let final_block =
        HashBlock::new(final_bytes.clone()).expect("5-byte block is within the cap");
    let apdu = PsoHash {
        class: ApduClass::Plain,
        mode: PsoHashMode::PartiallyByCard { state, final_block },
    }
    .into_apdu();

    let xx = state.xx_byte();
    let body_len_bytes = 2 + usize::from(xx) + 2 + final_bytes.len();
    let mut expected = vec![
        ApduClass::Plain.as_byte(),
        PsoHash::INS,
        PsoHash::P1,
        PsoHashMode::PartiallyByCard {
            state,
            final_block: HashBlock::new(final_bytes.clone())
                .expect("5-byte block is within the cap"),
        }
        .p2(),
        u8::try_from(body_len_bytes).expect("49-byte TLV body fits in u8"),
        PSO_HASH_TAG_HASH_VALUE,
        xx,
    ];
    expected.extend_from_slice(&intermediate_fixture);
    expected.extend_from_slice(&counter_fixture);
    expected.push(PSO_HASH_TAG_FINAL_BLOCK);
    expected.push(u8::try_from(final_bytes.len()).expect("5-byte block length fits in u8"));
    expected.extend_from_slice(&final_bytes);
    assert_eq!(apdu.as_bytes(), expected.as_slice());
}

#[test]
fn external_hash_value_length_bytes_match_spec_3_7_2_3_table() {
    assert_eq!(ExternalHashValue::Sha1([0; 20]).len_byte(), 20);
    assert_eq!(ExternalHashValue::Sha224([0; 28]).len_byte(), 28);
    assert_eq!(ExternalHashValue::Sha256([0; 32]).len_byte(), 32);
    assert_eq!(ExternalHashValue::Sha384([0; 48]).len_byte(), 48);
    assert_eq!(ExternalHashValue::Sha512([0; 64]).len_byte(), 64);
}

#[test]
fn intermediate_hash_state_xx_bytes_match_spec_table_10() {
    assert_eq!(
        IntermediateHashState::Sha1 {
            intermediate: [0; 20],
            counter: [0; 8],
        }
        .xx_byte(),
        0x1C
    );
    assert_eq!(
        IntermediateHashState::Sha256 {
            intermediate: [0; 32],
            counter: [0; 8],
        }
        .xx_byte(),
        0x28
    );
    assert_eq!(
        IntermediateHashState::Sha384Counter8 {
            intermediate: [0; 64],
            counter: [0; 8],
        }
        .xx_byte(),
        0x48
    );
    assert_eq!(
        IntermediateHashState::Sha512Counter16 {
            intermediate: [0; 64],
            counter: [0; 16],
        }
        .xx_byte(),
        0x50
    );
}

#[test]
fn hash_block_rejects_over_128_bytes() {
    let too_long = vec![0_u8; HASH_BLOCK_MAX_LEN + 1];
    let err = HashBlock::new(too_long).expect_err("129-byte block exceeds the cap");
    assert_eq!(
        err,
        HashBlockError::Overlength {
            got: HASH_BLOCK_MAX_LEN + 1
        }
    );
}

#[test]
fn pso_cds_serialises_per_spec_3_8_2() {
    let apdu = PsoComputeDigitalSignature {
        class: ApduClass::Plain,
    }
    .into_apdu();
    let expected: Vec<u8> = vec![
        ApduClass::Plain.as_byte(),
        PsoComputeDigitalSignature::INS,
        PsoComputeDigitalSignature::P1,
        PsoComputeDigitalSignature::P2,
        PsoComputeDigitalSignature::LE_MAX_SHORT,
    ];
    assert_eq!(apdu.as_bytes(), expected.as_slice());
}

#[test]
fn pso_cds_secure_messaging_class_carries_0c() {
    let apdu = PsoComputeDigitalSignature {
        class: ApduClass::SecureMessaging,
    }
    .into_apdu();
    assert_eq!(apdu.as_bytes()[0], ApduClass::SecureMessaging.as_byte());
}
