use state_list::codec::reads_back_all;
use state_list::decimal::digits;
use state_list::decimal::parse_signed;
use state_list::decimal::parse_unsigned;
use state_list::SharedStateList;
use state_list::StateList;
use state_list::TextItem;

const TEXTS: [&str; 40] = [
    "", "0", "7", "10", "007", "+5", "-5", "+", "-", "+-5", "-+5", "++5", "--5", "+0", "-0", " 5",
    "5 ", "5 5", "1_000", "1e3", "0x10", "٣", "５", "12a", "a12", "255", "256", "-128", "-129", "127",
    "128", "65535", "65536", "4294967295", "4294967296", "18446744073709551615",
    "18446744073709551616", "340282366920938463463374607431768211455",
    "340282366920938463463374607431768211456", "-170141183460469231731687303715884105728",
];

#[test]
fn unsigned_numbers_read_as_the_standard_library_reads_them() {
    for text in TEXTS.iter() {
        assert_eq!(u8::from_text(text), text.parse::<u8>().ok());
        assert_eq!(u16::from_text(text), text.parse::<u16>().ok());
        assert_eq!(u32::from_text(text), text.parse::<u32>().ok());
        assert_eq!(u64::from_text(text), text.parse::<u64>().ok());
        assert_eq!(u128::from_text(text), text.parse::<u128>().ok());
        assert_eq!(usize::from_text(text), text.parse::<usize>().ok());
        assert_eq!(parse_unsigned(text), text.parse::<u128>().ok());
    }
}

#[test]
fn signed_numbers_read_as_the_standard_library_reads_them() {
    let more = [
        "-170141183460469231731687303715884105729",
        "170141183460469231731687303715884105727",
        "170141183460469231731687303715884105728",
        "-9223372036854775808",
        "-9223372036854775809",
        "9223372036854775807",
        "9223372036854775808",
        "-2147483648",
        "-2147483649",
        "2147483647",
        "2147483648",
        "-32768",
        "-32769",
        "32767",
        "32768",
    ];
    for text in TEXTS.iter().chain(more.iter()) {
        assert_eq!(i8::from_text(text), text.parse::<i8>().ok());
        assert_eq!(i16::from_text(text), text.parse::<i16>().ok());
        assert_eq!(i32::from_text(text), text.parse::<i32>().ok());
        assert_eq!(i64::from_text(text), text.parse::<i64>().ok());
        assert_eq!(i128::from_text(text), text.parse::<i128>().ok());
        assert_eq!(isize::from_text(text), text.parse::<isize>().ok());
        assert_eq!(parse_signed(text), text.parse::<i128>().ok());
    }
}

#[test]
fn numbers_are_written_as_the_standard_library_writes_them() {
    for n in [0u128, 1, 9, 10, 11, 99, 100, 101, 12345, u64::MAX as u128, u128::MAX] {
        assert_eq!(n.to_text(), n.to_string());
        assert_eq!(digits(n).into_iter().collect::<String>(), n.to_string());
    }
    for n in [0i128, 1, -1, 9, -9, 10, -10, 127, -128, i64::MIN as i128, i128::MAX, i128::MIN] {
        assert_eq!(n.to_text(), n.to_string());
    }
    for n in 0..=u8::MAX {
        assert_eq!(n.to_text(), n.to_string());
        assert_eq!(u8::from_text(&n.to_text()), Some(n));
    }
    for n in i8::MIN..=i8::MAX {
        assert_eq!(n.to_text(), n.to_string());
        assert_eq!(i8::from_text(&n.to_text()), Some(n));
    }
    for n in [u16::MAX.to_text(), u32::MAX.to_text(), u64::MAX.to_text(), usize::MAX.to_text()] {
        assert_eq!(u128::from_text(&n).map(|v| v.to_string()), Some(n));
    }
    assert_eq!(i16::MIN.to_text(), "-32768");
    assert_eq!(i32::MIN.to_text(), "-2147483648");
    assert_eq!(i64::MIN.to_text(), "-9223372036854775808");
    assert_eq!(isize::MIN.to_text(), isize::MIN.to_string());
    assert_eq!(i64::MAX.to_text(), "9223372036854775807");
}

#[test]
fn a_list_of_numbers_is_saved_and_loaded() {
    let mut list: StateList<i32> = StateList::new();
    let rejected = list.load("numbers".to_string(), Some("3\n-7\n\n x\n +12 \n99999999999\n".to_string()));
    assert_eq!(list.get_entries(), vec![3, -7, 12]);
    assert_eq!(rejected, vec![" x".to_string(), "99999999999".to_string()]);
    list.add_item(i32::MIN);
    let saved = list.save_state().unwrap();
    assert_eq!(saved.content, "3\n-7\n12\n-2147483648\n");
    assert!(reads_back_all(&list.get_entries()));
    let mut fresh: StateList<i32> = StateList::new();
    fresh.load(saved.path, Some(saved.content));
    assert_eq!(fresh.get_entries(), list.get_entries());
}

#[test]
fn a_shared_list_of_numbers() {
    let shared: SharedStateList<u64> = SharedStateList::new();
    assert!(shared.load("ids".to_string(), Some("5\n3\n5\n".to_string())).is_some());
    assert!(shared.contains(&3));
    assert!(shared.add_item(8));
    assert_eq!(shared.save_matching(|n| *n > 3).unwrap().content, "5\n5\n8\n");
    assert_eq!(shared.length(), 4);
}
