use shortscale::shortscale;
use shortscale::shortscale_string_writer;

// Every value up to twenty is a single atom word.
#[test]
fn atoms_up_to_twenty() {
    let atoms = [
        "zero", "one", "two", "three", "four", "five", "six", "seven", "eight", "nine", "ten",
        "eleven", "twelve", "thirteen", "fourteen", "fifteen", "sixteen", "seventeen", "eighteen",
        "nineteen", "twenty",
    ];
    for (n, atom) in atoms.iter().enumerate() {
        assert_eq!(shortscale(n as u64), String::from(*atom));
    }
}

// Every value above 999_999_999_999_999_999 gives the one sentinel.
#[test]
fn sentinel_above_max() {
    assert_eq!(shortscale(1_000_000_000_000_000_000), "(big number)");
    assert_eq!(shortscale(1_999_999_999_999_999_999), "(big number)");
    assert_eq!(shortscale(u64::MAX), "(big number)");
}

// "and" stands between a hundreds word (or any earlier group) and a
// non-zero tens-and-units remainder, and nowhere else.
#[test]
fn and_insertion() {
    assert_eq!(shortscale(111), "one hundred and eleven");
    assert_eq!(shortscale(2_300), "two thousand three hundred");
    assert_eq!(shortscale(2_301), "two thousand three hundred and one");
    assert_eq!(shortscale(30_020), "thirty thousand and twenty");
    assert_eq!(shortscale(22), "twenty two");
    assert_eq!(shortscale(2_004), "two thousand and four");
}

// Each populated scale contributes its scale word exactly once; an
// empty scale group contributes it not at all.
#[test]
fn scale_words_once_per_populated_group() {
    let out = shortscale(420_000_999_015);
    assert_eq!(out.matches("billion").count(), 1);
    assert_eq!(out.matches("million").count(), 0);
    assert_eq!(out.matches("thousand").count(), 1);
    assert_eq!(out.matches("trillion").count(), 0);
    assert_eq!(out.matches("quadrillion").count(), 0);

    let all = shortscale(999_999_999_999_999_999);
    assert_eq!(all.matches("quadrillion").count(), 1);
    assert_eq!(all.matches("trillion").count(), 1);
    assert_eq!(all.matches("billion").count(), 1);
    assert_eq!(all.matches("million").count(), 1);
    assert_eq!(all.matches("thousand").count(), 1);
}

// No output starts or ends with a space, and none holds two in a row.
#[test]
fn no_stray_spaces() {
    let samples: [u64; 12] = [
        0,
        7,
        20,
        21,
        100,
        101,
        2_300,
        30_020,
        1_002_301,
        420_000_999_015,
        999_999_999_999_999_999,
        1_999_999_999_999_999_999,
    ];
    for num in samples.iter() {
        let out = shortscale(*num);
        assert!(!out.starts_with(' '));
        assert!(!out.ends_with(' '));
        assert!(!out.contains("  "));
    }
}

// The end-to-end examples, written out literally.
#[test]
fn end_to_end_examples() {
    assert_eq!(shortscale(0), "zero");
    assert_eq!(
        shortscale(420_000_999_015),
        "four hundred and twenty billion nine hundred and ninety nine thousand and fifteen"
    );
    assert_eq!(
        shortscale(999_999_999_999_999_999),
        "nine hundred and ninety nine quadrillion nine hundred and ninety nine trillion \
         nine hundred and ninety nine billion nine hundred and ninety nine million \
         nine hundred and ninety nine thousand nine hundred and ninety nine"
    );
    assert_eq!(
        shortscale(1_002_301),
        "one million two thousand three hundred and one"
    );
    assert_eq!(shortscale(1_999_999_999_999_999_999), "(big number)");
}

// The writer appends the same words after whatever is already there.
#[test]
fn writer_appends_without_extra_space() {
    let mut buf = String::new();
    shortscale_string_writer(&mut buf, 2_301);
    assert_eq!(buf, "two thousand three hundred and one");

    let mut buf = String::from("total: ");
    shortscale_string_writer(&mut buf, 22);
    assert_eq!(buf, "total: twenty two");
}
