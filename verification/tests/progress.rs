use honu::progress::SPINNER_STYLE;
use indicatif::ProgressStyle;

#[test]
fn styles_are_valid() {
    ProgressStyle::with_template(SPINNER_STYLE).unwrap();
}
