use brush::bits::{Double, Single};
use brush::names::{sort_names, PathName};
use brush::sort::sort_places;
use brush::text::{push_count, push_decimal, same_text, text_of};

fn name(text: &str) -> PathName {
    PathName::from_text(text)
}

#[test]
fn names_are_sorted_by_their_bytes() {
    let names = vec![name("b"), name("a"), name("B"), name("ab"), name("a")];
    let sorted: Vec<Vec<u8>> = sort_names(&names).into_iter().map(|n| n.bytes).collect();
    let expected: Vec<&[u8]> = vec![b"B", b"a", b"a", b"ab", b"b"];
    assert_eq!(sorted, expected);
    assert!(sort_names(&vec![]).is_empty());
}

#[test]
fn order_of_entries_does_not_matter() {
    let one = vec![name("c"), name("a"), name("b")];
    let two = vec![name("b"), name("c"), name("a")];
    let bytes = |v: Vec<PathName>| v.into_iter().map(|n| n.bytes).collect::<Vec<_>>();
    assert_eq!(bytes(sort_names(&one)), bytes(sort_names(&two)));
}

#[test]
fn extensions_are_found() {
    assert!(name("a.ply").extension_is("ply"));
    assert!(name("a.PlY").extension_is("ply"));
    assert!(name("a.b.ply").extension_is("ply"));
    assert!(!name("a.ply.gz").extension_is("ply"));
    assert!(!name("ply").extension_is("ply"));
    assert!(!name(".ply").extension_is("ply"));
    assert!(!name("..").has_extension());
    assert!(!name("a").has_extension());
    assert!(name("a.").has_extension());
    assert!(name("a.b").has_extension());
}

#[test]
fn extensions_are_replaced() {
    assert_eq!(name("a.ply").with_extension("mp4").bytes, b"a.mp4");
    assert_eq!(name("a.b.ply").with_extension("mp4").bytes, b"a.b.mp4");
    assert_eq!(name("a").with_extension("mp4").bytes, b"a.mp4");
}

#[test]
fn names_compare_by_their_bytes() {
    assert!(name("x").same_as(&PathName::from_bytes(&vec![b'x'])));
    assert!(!name("x").same_as(&name("xy")));
    assert!(!name("x").same_as(&name("y")));
}

#[test]
fn sorting_is_stable() {
    assert_eq!(sort_places(&vec![3usize, 1, 2, 1, 3]), vec![1, 3, 2, 0, 4]);
    assert_eq!(sort_places(&Vec::<usize>::new()), Vec::<usize>::new());
}

#[test]
fn numbers_are_written_in_decimal() {
    for n in [0u64, 7, 10, 1_234_567_890, u64::MAX] {
        let mut text = text_of("n=");
        push_decimal(&mut text, n);
        assert_eq!(text, format!("n={n}"));
    }
    let mut text = String::new();
    push_count(&mut text, 100);
    assert_eq!(text, "100");
    assert!(same_text("abc", "abc"));
    assert!(!same_text("abc", "abd"));
}

#[test]
fn single_bytes_round_trip() {
    for x in [0.0f32, -0.0, 1.5, f32::MAX, f32::NEG_INFINITY] {
        let mut bytes = Vec::new();
        Single { bits: x.to_bits() }.push_le_bytes(&mut bytes);
        assert_eq!(bytes, x.to_le_bytes());
        let back = Single::from_le_bytes(bytes[0], bytes[1], bytes[2], bytes[3]);
        assert_eq!(back.bits, x.to_bits());
        assert!(!back.is_nan());
    }
    assert!(Single { bits: f32::NAN.to_bits() }.is_nan());
    assert!(Single { bits: (-f32::NAN).to_bits() }.is_nan());
    assert_eq!(Single::zero().bits, 0.0f32.to_bits());
}

#[test]
fn double_ranks_order_like_numbers() {
    let values = [f64::NEG_INFINITY, -2.0, -1.0, -f64::MIN_POSITIVE, 0.0, 1.0, 1.5, f64::INFINITY];
    let of = |x: f64| Double { bits: x.to_bits() };
    for pair in values.windows(2) {
        assert!(of(pair[0]).order_rank() < of(pair[1]).order_rank());
    }
    assert_eq!(of(0.0).order_rank(), of(-0.0).order_rank());
    assert_eq!(of(-3.5).negate(), of(3.5));
    assert_eq!(of(3.5).negate().negate(), of(3.5));
    assert_eq!(of(-3.5).order_magnitude(), of(3.5).order_magnitude());
    assert_eq!(Double::zero().bits, 0);
}

#[test]
fn paths_are_compared_by_components() {
    let paths = [
        "", "/", "//", ".", "./", "/.", "./.", "..", "../", "a", "a/", "a/.", "./a", ".//a", "/a",
        "//a", "/./a", "a/b", "a//b", "a/./b", "a/b/", "a/b/.", "a/../b", "a/b/..", "./a/b", ".a",
        "a.", "a/.b", "...", "ab", "a/bc", "b/a",
    ];
    for a in paths {
        for b in paths {
            let same = PathName::from_text(a).same_path(&PathName::from_text(b));
            assert_eq!(same, std::path::Path::new(a) == std::path::Path::new(b), "{a:?} {b:?}");
        }
    }
    assert!(PathName { bytes: b"\xff//a".to_vec() }.same_path(&PathName { bytes: b"\xff/a".to_vec() }));
    assert!(!PathName::from_text("a//b").same_as(&PathName::from_text("a/b")));
}
