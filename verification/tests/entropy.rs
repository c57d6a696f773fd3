use kitties_erc20::entropy::dna_from_entropy;
use parity_scale_codec::Encode;

fn expected_payload(seed: [u8; 32], block: u64, sender: u64, ext: Option<u32>) -> Vec<u8> {
    let mut bytes = seed.to_vec();
    bytes.extend_from_slice(&block.to_le_bytes());
    bytes.extend_from_slice(&sender.to_le_bytes());
    match ext {
        None => bytes.push(0),
        Some(x) => {
            bytes.push(1);
            bytes.extend_from_slice(&x.to_le_bytes());
        }
    }
    bytes
}

#[test]
fn payload_encoding_is_scale() {
    let seed = [9u8; 32];
    let encoded = ((seed, 0x0102030405060708u64), &42u64, Some(7u32)).encode();
    assert_eq!(encoded, expected_payload(seed, 0x0102030405060708, 42, Some(7)));
    let encoded_none = ((seed, 1u64), &2u64, None::<u32>).encode();
    assert_eq!(encoded_none, expected_payload(seed, 1, 2, None));
}

#[test]
fn dna_is_blake2_128_of_payload() {
    let seed = [3u8; 32];
    let dna = dna_from_entropy(seed, 5, 11, Some(2));
    let expected = sp_io::hashing::blake2_128(&expected_payload(seed, 5, 11, Some(2)));
    assert_eq!(dna, expected);
    let dna_none = dna_from_entropy(seed, 5, 11, None);
    assert_eq!(dna_none, sp_io::hashing::blake2_128(&expected_payload(seed, 5, 11, None)));
    assert_ne!(dna, dna_none);
}

#[test]
fn dna_depends_on_sender() {
    let seed = [0u8; 32];
    assert_ne!(dna_from_entropy(seed, 1, 1, Some(0)), dna_from_entropy(seed, 1, 2, Some(0)));
    // a known digest: the payload is not handed back unchanged
    let dna = dna_from_entropy(seed, 0, 0, None);
    assert_ne!(dna.to_vec(), expected_payload(seed, 0, 0, None)[..16].to_vec());
}
