use melsec_mc::words::{
    bits_word, decode_values, encode_values, required_words, FromWords, ToWords,
};

#[test]
fn words_per_value() {
    assert_eq!(<u16 as FromWords>::WORDS, 1);
    assert_eq!(<i16 as FromWords>::WORDS, 1);
    assert_eq!(<[bool; 16] as FromWords>::WORDS, 1);
    assert_eq!(<u32 as FromWords>::WORDS, 2);
    assert_eq!(<i32 as FromWords>::WORDS, 2);
    assert_eq!(<u32 as ToWords>::WORDS, 2);
    assert_eq!(<i16 as ToWords>::WORDS, 1);
}

#[test]
fn decoding_one_value() {
    assert_eq!(u16::from_words_slice(&[7, 8]).unwrap(), (7, 1));
    assert_eq!(i16::from_words_slice(&[0xFFFF]).unwrap(), (-1, 1));
    assert_eq!(i16::from_words_slice(&[0x8000]).unwrap(), (i16::MIN, 1));
    assert_eq!(i16::from_words_slice(&[0x7FFF]).unwrap(), (i16::MAX, 1));
    assert_eq!(u32::from_words_slice(&[0x5678, 0x1234]).unwrap(), (0x1234_5678, 2));
    assert_eq!(u32::from_words_slice(&[0xFFFF, 0xFFFF, 1]).unwrap(), (u32::MAX, 2));
    assert_eq!(i32::from_words_slice(&[0xFFFE, 0xFFFF]).unwrap(), (-2, 2));
    assert_eq!(i32::from_words_slice(&[0x0000, 0x8000]).unwrap(), (i32::MIN, 2));
    assert_eq!(i32::from_words_slice(&[0xFFFF, 0x7FFF]).unwrap(), (i32::MAX, 2));
    let (bits, used) = <[bool; 16]>::from_words_slice(&[0x8005]).unwrap();
    assert_eq!(used, 1);
    let mut expected = [false; 16];
    expected[0] = true;
    expected[2] = true;
    expected[15] = true;
    assert_eq!(bits, expected);
    assert!(u16::from_words_slice(&[]).is_err());
    assert!(i16::from_words_slice(&[]).is_err());
    assert!(<[bool; 16]>::from_words_slice(&[]).is_err());
    assert!(u32::from_words_slice(&[1]).is_err());
    assert!(i32::from_words_slice(&[1]).is_err());
}

#[test]
fn encoding_values() {
    assert_eq!(encode_values(&[1u16, 0xFFFF]), vec![1, 0xFFFF]);
    assert_eq!(encode_values(&[-1i16, i16::MIN, 5]), vec![0xFFFF, 0x8000, 5]);
    assert_eq!(encode_values(&[0x1234_5678u32]), vec![0x5678, 0x1234]);
    assert_eq!(encode_values(&[-2i32, i32::MIN, 1]), vec![0xFFFE, 0xFFFF, 0, 0x8000, 1, 0]);
    let mut bits = [false; 16];
    bits[0] = true;
    bits[2] = true;
    bits[15] = true;
    assert_eq!(encode_values(&[bits]), vec![0x8005]);
    assert_eq!(bits_word(&[true; 16]), 0xFFFF);
    assert_eq!(bits_word(&[false; 16]), 0);
    assert_eq!(encode_values::<u16>(&[]), Vec::<u16>::new());
}

#[test]
fn values_come_back_from_their_words() {
    let values = [0i32, 1, -1, i32::MAX, i32::MIN, 0x0001_0002, -65536];
    let words = encode_values(&values);
    assert_eq!(decode_values::<i32>(&words, 7), values.to_vec());
    let values = [0u32, u32::MAX, 0x8000_0000];
    assert_eq!(decode_values::<u32>(&encode_values(&values), 3), values.to_vec());
    for w in [0u16, 1, 0x8000, 0xFFFF, 0x1234] {
        let bits = decode_values::<[bool; 16]>(&[w], 1);
        assert_eq!(encode_values(&bits), vec![w]);
        assert_eq!(encode_values(&decode_values::<i16>(&[w], 1)), vec![w]);
    }
}

#[test]
fn decoding_stops_at_count_or_at_the_end() {
    let words = [1u16, 2, 3, 4, 5];
    assert_eq!(decode_values::<u16>(&words, 3), vec![1, 2, 3]);
    assert_eq!(decode_values::<u16>(&words, 9), vec![1, 2, 3, 4, 5]);
    assert_eq!(decode_values::<u32>(&words, 9), vec![0x0002_0001, 0x0004_0003]);
    assert_eq!(decode_values::<u32>(&words, 1), vec![0x0002_0001]);
    assert_eq!(decode_values::<u32>(&words, 0), Vec::<u32>::new());
    assert_eq!(decode_values::<u32>(&[], 4), Vec::<u32>::new());
}

#[test]
fn words_that_a_read_asks_for() {
    assert_eq!(required_words(1, 10).unwrap(), 10);
    assert_eq!(required_words(2, 10).unwrap(), 20);
    assert_eq!(required_words(2, 32767).unwrap(), 65534);
    assert!(required_words(2, 32768).is_err());
    assert_eq!(required_words(1, 65535).unwrap(), 65535);
    assert_eq!(required_words(0, 65535).unwrap(), 0);
    assert_eq!(required_words(usize::MAX, 0).unwrap(), 0);
    assert!(required_words(usize::MAX, 1).is_err());
}
