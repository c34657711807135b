use gdip_snapshot::encoder::{
    find_encoder, normalize_extension, normalize_pattern, pattern_claims, resolve_encoder,
    EncoderDescriptor, ExtensionList,
};
use gdip_snapshot::error::CaptureError;
use gdip_snapshot::text::chars_of;

const BMP: u128 = 0x557CF400_1A04_11D3_9A73_0000F81EF32E;
const JPEG: u128 = 0x557CF401_1A04_11D3_9A73_0000F81EF32E;
const GIF: u128 = 0x557CF402_1A04_11D3_9A73_0000F81EF32E;
const TIFF: u128 = 0x557CF405_1A04_11D3_9A73_0000F81EF32E;
const PNG: u128 = 0x557CF406_1A04_11D3_9A73_0000F81EF32E;

fn encoder(identity: u128, patterns: &str) -> EncoderDescriptor {
    EncoderDescriptor { identity, extensions: ExtensionList::Patterns(patterns.to_string()) }
}

fn installed() -> Vec<EncoderDescriptor> {
    vec![
        encoder(BMP, "*.BMP;*.DIB;*.RLE"),
        encoder(JPEG, "*.JPG;*.JPEG;*.JPE;*.JFIF"),
        encoder(GIF, "*.GIF"),
        encoder(TIFF, "*.TIF;*.TIFF"),
        encoder(PNG, "*.PNG"),
    ]
}

fn text(v: &Vec<char>) -> String {
    v.iter().collect()
}

#[test]
fn extension_is_normalized_to_a_dotted_lower_case_token() {
    assert_eq!(text(&normalize_extension("jpg")), ".jpg");
    assert_eq!(text(&normalize_extension(".jpg")), ".jpg");
    assert_eq!(text(&normalize_extension("JPG")), ".jpg");
    assert_eq!(text(&normalize_extension("..Png")), ".png");
    assert_eq!(text(&normalize_extension("")), ".");
    assert_eq!(text(&normalize_extension(".")), ".");
    assert_eq!(text(&normalize_extension("tar.GZ")), ".tar.gz");
    assert_eq!(text(&normalize_extension("bmp7")), ".bmp7");
}

#[test]
fn pattern_is_normalized_without_wildcard() {
    assert_eq!(text(&normalize_pattern(&chars_of("*.JPG"))), ".jpg");
    assert_eq!(text(&normalize_pattern(&chars_of(" *.Jpeg  "))), ".jpeg");
    assert_eq!(text(&normalize_pattern(&chars_of(".png"))), ".png");
    assert_eq!(text(&normalize_pattern(&chars_of("**.TIF"))), ".tif");
    assert_eq!(text(&normalize_pattern(&chars_of("* .x"))), " .x");
    assert_eq!(text(&normalize_pattern(&chars_of(""))), "");
}

#[test]
fn patterns_claim_each_listed_extension() {
    let patterns = "*.JPG;*.JPEG;*.JPE;*.JFIF";
    for token in [".jpg", ".jpeg", ".jpe", ".jfif"] {
        assert!(pattern_claims(patterns, &chars_of(token)), "{}", token);
    }
    for token in [".png", ".jp", "jpg", ".JPG", "*.jpg", "", "."] {
        assert!(!pattern_claims(patterns, &chars_of(token)), "{}", token);
    }
    assert!(pattern_claims("*.A; *.B ;*.C", &chars_of(".b")));
    assert!(pattern_claims("", &chars_of("")));
    assert!(!pattern_claims("", &chars_of(".")));
}

#[test]
fn extension_matching_is_case_and_dot_insensitive() {
    let encoders = installed();
    assert_eq!(resolve_encoder(&encoders, "PNG"), Ok(PNG));
    assert_eq!(resolve_encoder(&encoders, ".png"), Ok(PNG));
    assert_eq!(resolve_encoder(&encoders, "png"), Ok(PNG));
    assert_eq!(resolve_encoder(&encoders, "PnG"), Ok(PNG));
    assert_eq!(resolve_encoder(&encoders, "...png"), Ok(PNG));
}

#[test]
fn every_standard_extension_finds_its_encoder() {
    let encoders = installed();
    for (extension, identity) in [
        ("bmp", BMP),
        ("dib", BMP),
        ("rle", BMP),
        ("jpg", JPEG),
        ("jpeg", JPEG),
        ("jpe", JPEG),
        ("jfif", JPEG),
        ("gif", GIF),
        ("tif", TIFF),
        ("tiff", TIFF),
        ("png", PNG),
    ] {
        assert_eq!(resolve_encoder(&encoders, extension), Ok(identity), "{}", extension);
        assert_eq!(
            resolve_encoder(&encoders, &extension.to_uppercase()),
            Ok(identity),
            "{}",
            extension
        );
    }
}

#[test]
fn unknown_extension_fails_closed() {
    let encoders = installed();
    assert_eq!(resolve_encoder(&encoders, "bmp7"), Err(CaptureError::UnsupportedFormat));
    assert_eq!(resolve_encoder(&encoders, "xyz"), Err(CaptureError::UnsupportedFormat));
    assert_eq!(resolve_encoder(&encoders, ""), Err(CaptureError::UnsupportedFormat));
    assert_eq!(resolve_encoder(&encoders, "pn"), Err(CaptureError::UnsupportedFormat));
    assert_eq!(resolve_encoder(&encoders, "png "), Err(CaptureError::UnsupportedFormat));
    assert_eq!(resolve_encoder(&encoders, "*.png"), Err(CaptureError::UnsupportedFormat));
}

#[test]
fn no_encoders_is_its_own_error() {
    assert_eq!(resolve_encoder(&vec![], "png"), Err(CaptureError::NoEncodersInstalled));
    assert_eq!(find_encoder(&vec![], &chars_of(".png")), Err(CaptureError::UnsupportedFormat));
}

#[test]
fn first_match_wins() {
    let encoders = vec![encoder(1, "*.AAA"), encoder(2, "*.PNG;*.X"), encoder(3, "*.png")];
    assert_eq!(resolve_encoder(&encoders, "png"), Ok(2));
    assert_eq!(resolve_encoder(&encoders, "x"), Ok(2));
    assert_eq!(resolve_encoder(&encoders, "aaa"), Ok(1));
}

#[test]
fn encoders_without_extensions_are_skipped() {
    let encoders = vec![
        EncoderDescriptor { identity: 9, extensions: ExtensionList::Missing },
        encoder(PNG, "*.PNG"),
    ];
    assert_eq!(resolve_encoder(&encoders, "png"), Ok(PNG));
    assert_eq!(resolve_encoder(&encoders, "gif"), Err(CaptureError::UnsupportedFormat));
    let only_missing = vec![EncoderDescriptor { identity: 9, extensions: ExtensionList::Missing }];
    assert_eq!(resolve_encoder(&only_missing, "png"), Err(CaptureError::UnsupportedFormat));
}

#[test]
fn unreadable_extensions_stop_the_scan() {
    let encoders = vec![
        encoder(GIF, "*.GIF"),
        EncoderDescriptor { identity: 9, extensions: ExtensionList::Undecodable },
        encoder(PNG, "*.PNG"),
    ];
    assert_eq!(resolve_encoder(&encoders, "gif"), Ok(GIF));
    assert_eq!(resolve_encoder(&encoders, "png"), Err(CaptureError::EncoderEnumerationFailed));
    assert_eq!(resolve_encoder(&encoders, "xyz"), Err(CaptureError::EncoderEnumerationFailed));
}

#[test]
fn find_encoder_takes_the_token_as_it_is() {
    let encoders = installed();
    assert_eq!(find_encoder(&encoders, &chars_of(".png")), Ok(PNG));
    assert_eq!(find_encoder(&encoders, &chars_of("png")), Err(CaptureError::UnsupportedFormat));
    assert_eq!(find_encoder(&encoders, &chars_of(".PNG")), Err(CaptureError::UnsupportedFormat));
}
