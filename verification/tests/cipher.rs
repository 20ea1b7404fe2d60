use aes::cipher::{BlockEncrypt, KeyInit};
use garbled_snark_verifier::aes_ni::{
    aes128_encrypt16_blocks_static_xor, aes128_encrypt2_blocks, aes128_encrypt4_blocks_static_xor_masks,
    aes128_encrypt_block, aes128_encrypt_block_static, aes128_encrypt_block_static_xor,
    aes128_encrypt_blocks_static_xor_masks, Aes128,
};

fn reference(key: [u8; 16], block: [u8; 16]) -> [u8; 16] {
    let cipher = aes::Aes128::new(&key.into());
    let mut b = block.into();
    cipher.encrypt_block(&mut b);
    b.into()
}

fn xor(a: [u8; 16], b: [u8; 16]) -> [u8; 16] {
    core::array::from_fn(|i| a[i] ^ b[i])
}

#[test]
fn known_answer() {
    let key: [u8; 16] = core::array::from_fn(|i| i as u8);
    let block: [u8; 16] = core::array::from_fn(|i| (i * 17) as u8);
    let expected = [
        0x69, 0xc4, 0xe0, 0xd8, 0x6a, 0x7b, 0x04, 0x30, 0xd8, 0xcd, 0xb7, 0x80, 0x70, 0xb4, 0xc5,
        0x5a,
    ];
    assert_eq!(aes128_encrypt_block(key, block), Some(expected));
    assert_eq!(Aes128::new(key).unwrap().encrypt_block(block), expected);
}

#[test]
fn blocks_are_encrypted_one_by_one() {
    let key = [3u8; 16];
    let cipher = Aes128::new(key).unwrap();
    let b: [[u8; 16]; 8] = core::array::from_fn(|i| [i as u8; 16]);
    let m = [0x5au8; 16];
    let plain: [[u8; 16]; 8] = core::array::from_fn(|i| reference(key, b[i]));
    let masked: [[u8; 16]; 8] = core::array::from_fn(|i| reference(key, xor(b[i], m)));
    assert_eq!(cipher.encrypt8_blocks(b), plain);
    assert_eq!(cipher.encrypt8_blocks_xor(b, m), masked);
    assert_eq!(cipher.encrypt4_blocks([b[0], b[1], b[2], b[3]]), [plain[0], plain[1], plain[2], plain[3]]);
    assert_eq!(
        cipher.encrypt4_blocks_xor([b[0], b[1], b[2], b[3]], m),
        [masked[0], masked[1], masked[2], masked[3]]
    );
    assert_eq!(cipher.encrypt2_blocks(b[0], b[1]), (plain[0], plain[1]));
    assert_eq!(cipher.encrypt2_blocks_xor(b[0], b[1], m), (masked[0], masked[1]));
    assert_eq!(cipher.encrypt_block_xor(b[5], m), masked[5]);
    assert_eq!(aes128_encrypt2_blocks(key, b[0], b[1]), Some((plain[0], plain[1])));
}

#[test]
fn static_key_variants_agree() {
    let b: [[u8; 16]; 16] = core::array::from_fn(|i| [i as u8; 16]);
    let m = [9u8; 16];
    let all = aes128_encrypt16_blocks_static_xor(b, m).unwrap();
    for i in 0..16 {
        assert_eq!(Some(all[i]), aes128_encrypt_block_static_xor(b[i], m));
        assert_eq!(Some(all[i]), aes128_encrypt_block_static(xor(b[i], m)));
    }
    let masks = [[1u8; 16], [2u8; 16], [3u8; 16], [4u8; 16]];
    let four = [b[0], b[1], b[2], b[3]];
    let r = aes128_encrypt4_blocks_static_xor_masks(four, masks).unwrap();
    for i in 0..4 {
        assert_eq!(Some(r[i]), aes128_encrypt_block_static_xor(four[i], masks[i]));
    }
    assert_eq!(aes128_encrypt_blocks_static_xor_masks::<4>(four, masks), Some(r));
}
