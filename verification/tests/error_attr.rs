use embedded_error_chain::error_variant::{ErrorVariant, ErrorVariantAttr};
use embedded_error_chain::marker::Unused;
use embedded_error_chain::{
    CategoryIdentity, ChainError, ErrorCategory, ErrorCode, ErrorCodeFormatter,
};

#[derive(Clone, Copy)]
enum OtherError {
    ExtremeFailure,
}

impl CategoryIdentity for OtherError {
    const ID: u16 = 1;
}

impl ErrorCategory for OtherError {
    const NAME: &'static str = "OtherError";
    const VARIANTS: &'static [(ErrorCode, &'static str)] = &[(0, "ExtremeFailure")];

    type L0 = Unused;
    type L1 = Unused;
    type L2 = Unused;
    type L3 = Unused;
    type L4 = Unused;
    type L5 = Unused;
}

impl From<ErrorCode> for OtherError {
    fn from(val: ErrorCode) -> Self {
        match val {
            0 => OtherError::ExtremeFailure,
            _ => panic!("tried to convert invalid error code to category type"),
        }
    }
}

impl Into<ErrorCode> for OtherError {
    fn into(self) -> ErrorCode {
        match self {
            OtherError::ExtremeFailure => 0,
        }
    }
}

#[derive(Clone, Copy)]
#[allow(dead_code)]
enum TestError {
    Foo,
    Other,
    Bar,
}

impl CategoryIdentity for TestError {
    const ID: u16 = 2;
}

impl ErrorCategory for TestError {
    const NAME: &'static str = "optional name";
    const VARIANTS: &'static [(ErrorCode, &'static str)] = &[
        (
            0,
            "format string Foo error (summary), Detailed description.\nThe summary and detailed description are available as placeholders in\nthe `#[error(...)]` attribute. If no such attribute is put on the variant\nor the `...` part is empty, then the summary will be used. If the summary\ndoes not exist (no doc comments on the variant), then the variant name is\nused for debug printing., Foo, optional name",
        ),
        (1, "custom some_expr, 200"),
        (2, "Some explanation"),
    ];

    type L0 = OtherError;
    type L1 = Unused;
    type L2 = Unused;
    type L3 = Unused;
    type L4 = Unused;
    type L5 = Unused;
}

impl From<ErrorCode> for TestError {
    fn from(val: ErrorCode) -> Self {
        match val {
            0 => TestError::Foo,
            1 => TestError::Other,
            2 => TestError::Bar,
            _ => panic!("tried to convert invalid error code to category type"),
        }
    }
}

impl Into<ErrorCode> for TestError {
    fn into(self) -> ErrorCode {
        match self {
            TestError::Foo => 0,
            TestError::Other => 1,
            TestError::Bar => 2,
        }
    }
}

fn categories() -> [ErrorCodeFormatter; 2] {
    [
        ErrorCodeFormatter::new::<OtherError>(),
        ErrorCodeFormatter::new::<TestError>(),
    ]
}

fn foo_doc_comments() -> Vec<String> {
    vec![
        " Foo error (summary)".to_string(),
        "".to_string(),
        " Detailed description.".to_string(),
        " The summary and detailed description are available as placeholders in".to_string(),
        " the `#[error(...)]` attribute. If no such attribute is put on the variant".to_string(),
        " or the `...` part is empty, then the summary will be used. If the summary".to_string(),
        " does not exist (no doc comments on the variant), then the variant name is".to_string(),
        " used for debug printing.".to_string(),
    ]
}

#[test]
fn check_print() {
    let categories = categories();
    let test_error = ErrorCodeFormatter::new::<TestError>();
    assert_eq!(
        test_error.variant_str(TestError::Foo.into()),
        "format string Foo error (summary), Detailed description.\nThe summary and detailed description are available as placeholders in\nthe `#[error(...)]` attribute. If no such attribute is put on the variant\nor the `...` part is empty, then the summary will be used. If the summary\ndoes not exist (no doc comments on the variant), then the variant name is\nused for debug printing., Foo, optional name"
    );

    assert_eq!(
        test_error.variant_str(TestError::Other.into()),
        "custom some_expr, 200"
    );

    let err = (OtherError::ExtremeFailure).chain(TestError::Bar);
    assert_eq!(
        err.to_text(&categories),
        "optional name(2): Some explanation\n- OtherError(0): ExtremeFailure"
    )
}

#[test]
fn variant_text_of_format_string_with_all_placeholders() {
    let attr = ErrorVariantAttr::parse(
        "format string {summary}, {details}, {variant}, {category}".to_string(),
    );
    assert!(attr.doc_comment_placeholder);
    let mut variant = ErrorVariant::parse("Foo".to_string(), &foo_doc_comments(), Some(attr));
    assert_eq!(variant.doc_summary, "Foo error (summary)");
    variant.expand("optional name");
    assert_eq!(
        variant.text(),
        "format string Foo error (summary), Detailed description.\nThe summary and detailed description are available as placeholders in\nthe `#[error(...)]` attribute. If no such attribute is put on the variant\nor the `...` part is empty, then the summary will be used. If the summary\ndoes not exist (no doc comments on the variant), then the variant name is\nused for debug printing., Foo, optional name"
    );
}

#[test]
fn variant_text_is_the_summary_without_an_attribute() {
    let mut variant = ErrorVariant::parse(
        "Bar".to_string(),
        &vec![" Some explanation".to_string()],
        None,
    );
    variant.expand("optional name");
    assert_eq!(variant.text(), "Some explanation");
}

#[test]
fn variant_text_is_the_name_without_attribute_and_comment() {
    let mut variant = ErrorVariant::parse("ExtremeFailure".to_string(), &vec![], None);
    variant.expand("OtherError");
    assert_eq!(variant.format_str, None);
    assert_eq!(variant.text(), "ExtremeFailure");
}

#[test]
fn attribute_without_doc_placeholders_ignores_the_comment() {
    let attr = ErrorVariantAttr::parse("{variant} failed in {category}".to_string());
    assert!(!attr.doc_comment_placeholder);
    let mut variant = ErrorVariant::parse(
        "ReadoutFailed".to_string(),
        &vec![" Value must be in range".to_string()],
        Some(attr),
    );
    assert_eq!(variant.doc_summary, "");
    assert_eq!(variant.doc_details, "");
    variant.expand("GyroAccError");
    assert_eq!(variant.text(), "ReadoutFailed failed in GyroAccError");
}

#[test]
fn attribute_with_summary_placeholder_reads_the_comment() {
    let attr = ErrorVariantAttr::parse("{variant}: {summary}".to_string());
    assert!(attr.doc_comment_placeholder);
    let mut variant = ErrorVariant::parse(
        "InvalidValue".to_string(),
        &vec![" Value must be in range [0, 256)".to_string()],
        Some(attr),
    );
    variant.expand("GyroAccError");
    assert_eq!(
        variant.text(),
        "InvalidValue: Value must be in range [0, 256)"
    );
}

#[test]
fn attribute_with_details_placeholder_reads_the_comment() {
    let attr = ErrorVariantAttr::parse("{details}".to_string());
    assert!(attr.doc_comment_placeholder);
    let mut variant = ErrorVariant::parse(
        "SomethingHappened".to_string(),
        &vec![
            " Very bad".to_string(),
            "".to_string(),
            " This is a very long and details explanation of what happend".to_string(),
            " and why, all the newlines are preseved and we opt-in so that".to_string(),
            " this message will be displayed.".to_string(),
        ],
        Some(attr),
    );
    assert_eq!(variant.doc_summary, "Very bad");
    variant.expand("SeperateError");
    assert_eq!(
        variant.text(),
        "This is a very long and details explanation of what happend\nand why, all the newlines are preseved and we opt-in so that\nthis message will be displayed."
    );
}

#[test]
fn escaped_placeholder_in_an_attribute_is_kept() {
    let attr = ErrorVariantAttr::parse("{{summary}} of {variant}".to_string());
    assert!(!attr.doc_comment_placeholder);
    let mut variant = ErrorVariant::parse("Foo".to_string(), &vec![], Some(attr));
    variant.expand("Cat");
    assert_eq!(variant.text(), "{{summary}} of Foo");
}

#[test]
fn placeholders_in_a_summary_are_filled_in() {
    let mut variant = ErrorVariant::parse(
        "Bar".to_string(),
        &vec![" {variant} of {category}".to_string(), " fails".to_string()],
        None,
    );
    assert_eq!(variant.doc_summary, "{variant} of {category} fails");
    variant.expand("Cat");
    assert_eq!(variant.text(), "Bar of Cat fails");
}

#[test]
fn comment_in_one_piece_with_line_breaks_is_split() {
    let mut variant = ErrorVariant::parse(
        "Bar".to_string(),
        &vec![" Summary\n\n Details\n more".to_string()],
        Some(ErrorVariantAttr::parse("{summary}|{details}".to_string())),
    );
    variant.expand("Cat");
    assert_eq!(variant.text(), "Summary|Details\nmore");
}
