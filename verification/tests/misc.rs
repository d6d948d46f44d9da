use pbrt::fileutil::{
    directory_containing, has_extension, is_absolute_path, parent_directory, resolve_filename,
    set_search_directory,
};
use pbrt::imageio::{
    file_format, image_format, image_read, is_whitespace, parse_usize, pfm_channels,
    read_pfm_header, read_word, ImageFormat, ImageRead, PfmError,
};
use pbrt::options::{log_level, LogLevel};
use pbrt::texture::{ConstantTexture, Texture};
use pbrt::Options;

#[test]
fn absolute_paths() {
    assert!(is_absolute_path("/tmp/x"));
    assert!(!is_absolute_path("tmp/x"));
    assert!(!is_absolute_path(""));
}

#[test]
fn resolve_with_and_without_search_directory() {
    let dir = set_search_directory(Some("/scenes"));
    assert_eq!(dir.as_deref(), Some("/scenes"));
    assert_eq!(resolve_filename(&dir, "a.pbrt"), "/scenes/a.pbrt");
    assert_eq!(resolve_filename(&dir, "/abs/a.pbrt"), "/abs/a.pbrt");
    let none = set_search_directory(None);
    assert_eq!(resolve_filename(&none, "a.pbrt"), "a.pbrt");
}

#[test]
fn directories() {
    assert_eq!(directory_containing("/a/b/c.pbrt"), "/a/b");
    assert_eq!(parent_directory("dir/c.pbrt"), Some("dir".to_string()));
    assert_eq!(parent_directory("/"), None);
    assert_eq!(parent_directory(""), None);
}

#[test]
fn extensions_ignore_case() {
    assert!(has_extension("image.PNG", "png"));
    assert!(has_extension("image.png", "PnG"));
    assert!(!has_extension("image.png", "exr"));
    assert!(!has_extension("image", "png"));
}

#[test]
fn image_formats() {
    assert_eq!(image_format("PNG"), ImageFormat::Png);
    assert_eq!(image_format("exr"), ImageFormat::Exr);
    assert_eq!(image_format("Tga"), ImageFormat::Tga);
    assert_eq!(image_format("pfm"), ImageFormat::Pfm);
    assert_eq!(image_format("jpg"), ImageFormat::Unknown);
    assert_eq!(file_format("out/picture.Pfm"), Some(ImageFormat::Pfm));
    assert_eq!(file_format("noext"), None);
}

#[test]
fn words_and_numbers() {
    assert!(is_whitespace(b' ') && is_whitespace(b'\n') && is_whitespace(b'\t'));
    assert!(!is_whitespace(b'\r'));
    assert_eq!(read_word(b"PF\n12 ", 0), Ok(("PF".to_string(), 3)));
    assert_eq!(read_word(b"PF", 0), Err(PfmError::UnexpectedEof));
    assert_eq!(read_word(b"\xff ", 0), Err(PfmError::NotUtf8));
    assert_eq!(parse_usize("42"), Some(42));
    assert_eq!(parse_usize("+7"), Some(7));
    assert_eq!(parse_usize("-7"), None);
    assert_eq!(parse_usize(""), None);
    assert_eq!(parse_usize("+"), None);
    assert_eq!(parse_usize("1x"), None);
    assert_eq!(parse_usize("18446744073709551615"), Some(usize::MAX));
    assert_eq!(parse_usize("18446744073709551616"), None);
    assert_eq!(pfm_channels("PF"), Some(3));
    assert_eq!(pfm_channels("Pf"), Some(1));
    assert_eq!(pfm_channels("P6"), None);
}

#[test]
fn pfm_headers() {
    let h = read_pfm_header(b"PF\n2 3\n-1.0\n\x00\x00").unwrap();
    assert_eq!((h.n_channels, h.width, h.height, h.scale.as_str(), h.data_start), (3, 2, 3, "-1.0", 12));
    assert_eq!(read_pfm_header(b"P6\n2 3\n1\n"), Err(PfmError::InvalidHeader("P6".to_string())));
    assert_eq!(read_pfm_header(b"Pf\nx 3\n1\n"), Err(PfmError::ParseInt));
    assert_eq!(read_pfm_header(b"Pf\n2 3\nscale\n"), Err(PfmError::ParseFloat));
    assert_eq!(read_pfm_header(b"Pf\n2 3"), Err(PfmError::UnexpectedEof));
}

#[test]
fn options_from_flags() {
    let d = Options::default();
    assert_eq!((d.num_threads, d.quick_render, d.quiet, d.verbose, d.image_file.as_str()), (1, false, false, true, ""));
    let o = Options::from_flags(Some(8), true, false, false, Some("out.png".to_string()));
    assert_eq!((o.num_threads, o.quick_render, o.image_file.as_str()), (8, true, "out.png"));
    let o = Options::from_flags(None, false, true, false, None);
    assert_eq!((o.num_threads, o.quiet, o.image_file.as_str()), (1, true, ""));
    assert_eq!(log_level(true, true), LogLevel::Debug);
    assert_eq!(log_level(false, true), LogLevel::Warn);
    assert_eq!(log_level(false, false), LogLevel::Info);
}

#[test]
fn constant_texture_returns_its_value() {
    let t = ConstantTexture::new(10u32);
    assert_eq!(t.evaluate(), 10);
    let t = ConstantTexture::new("red".to_string());
    assert_eq!(t.evaluate(), "red");
}

#[test]
fn resolve_adds_a_separator_only_where_needed() {
    let slash = set_search_directory(Some("/scenes/"));
    assert_eq!(resolve_filename(&slash, "a.pbrt"), "/scenes/a.pbrt");
    let empty = set_search_directory(Some(""));
    assert_eq!(resolve_filename(&empty, "a.pbrt"), "a.pbrt");
    let rel = set_search_directory(Some("scenes/sub"));
    assert_eq!(resolve_filename(&rel, "tex/a.png"), "scenes/sub/tex/a.png");
}

#[test]
fn image_read_chooses_decoder_or_error() {
    assert_eq!(image_read("a/b.PNG"), ImageRead::Png);
    assert_eq!(image_read("x.pfm"), ImageRead::Pfm);
    assert_eq!(image_read("x.Exr"), ImageRead::ReadNotImplemented(".exr".to_string()));
    assert_eq!(image_read("x.tga"), ImageRead::ReadNotImplemented(".tga".to_string()));
    assert_eq!(image_read("x.JpG"), ImageRead::UnknownExtension("jpg".to_string()));
    assert_eq!(image_read("noext"), ImageRead::UnknownExtension(String::new()));
}
