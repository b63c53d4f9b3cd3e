use resampler::FilterKind;
use resampler::get_algorithms;
use resampler::parse_filter;

#[test]
fn parse_known_aliases() {
    assert_eq!(parse_filter("nearest"), FilterKind::Nearest);
    assert_eq!(parse_filter("bilinear"), FilterKind::Bilinear);
    assert_eq!(parse_filter("catmull"), FilterKind::CatmullRom);
    assert_eq!(parse_filter("catmullrom"), FilterKind::CatmullRom);
    assert_eq!(parse_filter("mitchell"), FilterKind::Mitchell);
    assert_eq!(parse_filter("lanczos3"), FilterKind::Lanczos3);
}

#[test]
fn parse_is_case_insensitive() {
    assert_eq!(parse_filter("NEAREST"), FilterKind::Nearest);
    assert_eq!(parse_filter("BiLinear"), FilterKind::Bilinear);
    assert_eq!(parse_filter("CatmullRom"), FilterKind::CatmullRom);
    assert_eq!(parse_filter("MITCHELL"), FilterKind::Mitchell);
    assert_eq!(parse_filter("Lanczos3"), FilterKind::Lanczos3);
}

#[test]
fn parse_unknown_falls_back_to_lanczos3() {
    assert_eq!(parse_filter("bicubic-xyz"), FilterKind::Lanczos3);
    assert_eq!(parse_filter(""), FilterKind::Lanczos3);
    assert_eq!(parse_filter("nearest "), FilterKind::Lanczos3);
}

#[test]
fn algorithms_list_is_fixed() {
    let names = get_algorithms();
    assert_eq!(
        names,
        vec![
            "nearest".to_string(),
            "bilinear".to_string(),
            "catmull".to_string(),
            "mitchell".to_string(),
            "lanczos3".to_string(),
        ]
    );
}
