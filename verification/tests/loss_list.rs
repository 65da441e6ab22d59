use srt::loss_list::CompressedLossList;
use srt::numbers::SeqNumber;

fn decompressed(list: &CompressedLossList) -> Vec<u32> {
    let mut numbers = list.iter_decompressed();
    let mut all = Vec::new();
    while let Some(number) = numbers.next() {
        all.push(number.as_raw());
    }
    all
}

fn compressed(numbers: &[u32]) -> CompressedLossList {
    let list = numbers.iter().map(|n| SeqNumber::new_truncate(*n)).collect();
    CompressedLossList::from_loss_list(list)
}

#[test]
fn single_numbers_and_ranges_are_decompressed() {
    let list = CompressedLossList::from_words(vec![3, 0x8000_0005, 8, 20, 0x8000_0030, 0x30]);
    assert_eq!(decompressed(&list), vec![3, 5, 6, 7, 8, 20, 0x30]);
}

#[test]
fn ranges_wrap() {
    let list = CompressedLossList::from_words(vec![0xffff_fffe, 1]);
    assert_eq!(decompressed(&list), vec![0x7fff_fffe, 0x7fff_ffff, 0, 1]);
}

#[test]
fn range_without_an_end_is_passed_over() {
    let list = CompressedLossList::from_words(vec![4, 0x8000_0009]);
    assert_eq!(decompressed(&list), vec![4]);
}

#[test]
fn compressed_lists_give_back_what_went_in() {
    for numbers in [
        vec![],
        vec![7],
        vec![1, 2, 3, 7, 9, 10],
        vec![0x7fff_ffff, 0, 1],
        vec![5, 5, 4, 3],
    ] {
        assert_eq!(decompressed(&compressed(&numbers)), numbers);
    }
}

#[test]
fn runs_are_written_as_ranges() {
    assert_eq!(
        format!("{:?}", compressed(&[1, 2, 3, 7])),
        format!("{:?}", CompressedLossList::from_words(vec![0x8000_0001, 3, 7]))
    );
}
