use base64::Engine;
use dkg_verification::codec::{vk_to_bs58, vk_try_from_bs58};
use dkg_verification::keys::{
    check_vk_pairing, transpose_matrix, GroupElement, VerificationKey, GROUP_ELEMENT_BYTES,
};
use dkg_verification::route::{
    get_destination, route_from, zero_pad_to_32_bytes, MixNode, Topology,
};
use dkg_verification::submission::{
    find_attribute, parse_u64, LogAttribute, LogEvent, TxLog,
};

fn element(tag: u8) -> GroupElement {
    let mut bytes = vec![0u8; GROUP_ELEMENT_BYTES];
    bytes[0] = tag;
    GroupElement { bytes }
}

fn sample_vk() -> VerificationKey {
    VerificationKey {
        alpha: element(10),
        betas: vec![element(1), element(2), element(3), element(4)],
    }
}

#[test]
fn verification_key_round_trips_through_bs58() {
    let vk = sample_vk();
    let share = vk_to_bs58(&vk);
    // the encoding really is base58 text, not the raw bytes
    assert!(share.is_ascii());
    assert_ne!(share.len(), GROUP_ELEMENT_BYTES * 5);
    let parsed = vk_try_from_bs58(&share).unwrap();
    assert_eq!(parsed.alpha.bytes, vk.alpha.bytes);
    assert_eq!(parsed.betas.len(), vk.betas.len());
    for (a, b) in parsed.betas.iter().zip(vk.betas.iter()) {
        assert_eq!(a.bytes, b.bytes);
    }
}

#[test]
fn share_with_invalid_base58_characters_is_rejected() {
    assert!(vk_try_from_bs58(&"not a base58 string!".to_string()).is_none());
    assert!(vk_try_from_bs58(&"0OIl".to_string()).is_none());
}

#[test]
fn share_with_wrong_byte_length_is_rejected() {
    // valid base58, but not a whole number of group elements
    let bytes = vec![7u8; GROUP_ELEMENT_BYTES - 1];
    let share = bs58::encode(&bytes).into_string();
    assert!(vk_try_from_bs58(&share).is_none());
    let empty = bs58::encode(&Vec::<u8>::new()).into_string();
    assert!(vk_try_from_bs58(&empty).is_none());
}

#[test]
fn pairing_accepts_exactly_the_matching_row() {
    let vk = sample_vk();
    let row = vec![element(1), element(2), element(3), element(4), element(10)];
    assert!(check_vk_pairing(&row, &vk));
    let wrong_alpha = vec![element(1), element(2), element(3), element(4), element(9)];
    assert!(!check_vk_pairing(&wrong_alpha, &vk));
    let wrong_beta = vec![element(1), element(2), element(9), element(4), element(10)];
    assert!(!check_vk_pairing(&wrong_beta, &vk));
    let too_short = vec![element(1), element(10)];
    assert!(!check_vk_pairing(&too_short, &vk));
}

#[test]
fn transpose_swaps_rows_and_columns() {
    let m = vec![
        vec![element(1), element(2)],
        vec![element(3), element(4)],
        vec![element(5), element(6)],
    ];
    let t = transpose_matrix(&m);
    assert_eq!(t.len(), 2);
    for row in t.iter() {
        assert_eq!(row.len(), 3);
    }
    assert_eq!(t[0][0].bytes, m[0][0].bytes);
    assert_eq!(t[0][1].bytes, m[1][0].bytes);
    assert_eq!(t[1][2].bytes, m[2][1].bytes);
}

#[test]
fn parse_u64_accepts_exactly_fitting_decimals() {
    assert_eq!(parse_u64(&"0".to_string()), Some(0));
    assert_eq!(parse_u64(&"123".to_string()), Some(123));
    assert_eq!(parse_u64(&"007".to_string()), Some(7));
    assert_eq!(parse_u64(&"18446744073709551615".to_string()), Some(u64::MAX));
    assert_eq!(parse_u64(&"18446744073709551616".to_string()), None);
    assert_eq!(parse_u64(&"".to_string()), None);
    assert_eq!(parse_u64(&"12a".to_string()), None);
    assert_eq!(parse_u64(&"-1".to_string()), None);
}

#[test]
fn find_attribute_searches_matching_events_in_order() {
    let logs = vec![
        TxLog {
            events: vec![LogEvent {
                ty: "transfer".to_string(),
                attributes: vec![LogAttribute {
                    key: "dkg_proposal_id".to_string(),
                    value: "1".to_string(),
                }],
            }],
        },
        TxLog {
            events: vec![
                LogEvent {
                    ty: "wasm".to_string(),
                    attributes: vec![LogAttribute {
                        key: "other".to_string(),
                        value: "x".to_string(),
                    }],
                },
                LogEvent {
                    ty: "wasm".to_string(),
                    attributes: vec![
                        LogAttribute { key: "dkg_proposal_id".to_string(), value: "2".to_string() },
                        LogAttribute { key: "dkg_proposal_id".to_string(), value: "3".to_string() },
                    ],
                },
            ],
        },
    ];
    let ty = "wasm".to_string();
    let key = "dkg_proposal_id".to_string();
    assert_eq!(find_attribute(&logs, &ty, &key), Some("2".to_string()));
    let missing = "unheard_of".to_string();
    assert_eq!(find_attribute(&logs, &ty, &missing), None);
}

#[test]
fn zero_pad_fills_up_to_32_bytes() {
    let padded = zero_pad_to_32_bytes(vec![1, 2, 3]);
    assert_eq!(&padded[..3], &[1, 2, 3]);
    assert!(padded[3..].iter().all(|b| *b == 0));
    let empty = zero_pad_to_32_bytes(Vec::new());
    assert!(empty.iter().all(|b| *b == 0));
    let full: Vec<u8> = (0..32).collect();
    assert_eq!(zero_pad_to_32_bytes(full.clone()).to_vec(), full);
}

#[test]
fn route_is_built_from_the_first_usable_nodes() {
    let key_bytes = vec![9u8, 8, 7];
    let encoded = base64::engine::general_purpose::URL_SAFE.encode(&key_bytes);
    let topology = Topology {
        mix_nodes: vec![
            MixNode { host: b"mix.a:1789".to_vec(), pub_key: encoded.clone() },
            MixNode { host: b"mix.b:1789".to_vec(), pub_key: encoded.clone() },
            MixNode { host: b"mix.c:1789".to_vec(), pub_key: encoded },
        ],
    };
    let route = route_from(&topology, 2).unwrap();
    assert_eq!(route.len(), 2);
    assert_eq!(&route[0].address[..10], b"mix.a:1789");
    assert_eq!(&route[0].pub_key[..3], &[9, 8, 7]);
    assert!(route[0].pub_key[3..].iter().all(|b| *b == 0));
    // asking for more hops than the directory offers takes them all
    let longer = route_from(&topology, 9).unwrap();
    assert_eq!(longer.len(), 3);
}

#[test]
fn route_fails_on_unusable_nodes() {
    let bad_key = Topology {
        mix_nodes: vec![MixNode { host: b"mix.a:1789".to_vec(), pub_key: "!!!".to_string() }],
    };
    assert!(route_from(&bad_key, 1).is_none());
    let long_host = Topology {
        mix_nodes: vec![MixNode {
            host: vec![b'a'; 40],
            pub_key: base64::engine::general_purpose::URL_SAFE.encode([1u8]),
        }],
    };
    assert!(route_from(&long_host, 1).is_none());
    // an unusable node beyond the requested length does not matter
    let mixed = Topology {
        mix_nodes: vec![
            MixNode {
                host: b"mix.a:1789".to_vec(),
                pub_key: base64::engine::general_purpose::URL_SAFE.encode([1u8, 2]),
            },
            MixNode { host: b"mix.b:1789".to_vec(), pub_key: "!!!".to_string() },
        ],
    };
    assert!(route_from(&mixed, 1).is_some());
}

#[test]
fn destination_is_zeroed() {
    let d = get_destination();
    assert!(d.address.iter().all(|b| *b == 0));
    assert!(d.identifier.iter().all(|b| *b == 0));
}
