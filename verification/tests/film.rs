use pbrt::film::{pixel_count, pixel_offset};
use pbrt::floatfile::float_words;
use pbrt::geometry::{Bounds2i, Point2};

#[test]
fn offsets_follow_visiting_order() {
    let b = Bounds2i::from([[2, 3], [6, 5]]);
    assert_eq!(pixel_count(&b), 8);
    for (k, p) in b.iter().into_iter().enumerate() {
        assert_eq!(pixel_offset(&b, p), k);
    }
    assert_eq!(pixel_offset(&b, Point2 { x: 5, y: 4 }), 7);
    assert_eq!(pixel_count(&Bounds2i::from([[0, 0], [0, 4]])), 0);
}

#[test]
fn number_file_words() {
    assert_eq!(float_words("1 2.0\t0.5 # 3 4"), vec!["1", "2.0", "0.5"]);
    assert_eq!(float_words("   10.0 inf"), vec!["10.0", "inf"]);
    assert_eq!(float_words("# only a comment"), Vec::<String>::new());
    assert_eq!(float_words(""), Vec::<String>::new());
    assert_eq!(float_words("x#y z"), vec!["x"]);
}
