use ptouch::error::PtouchError;
use ptouch::layout::LayoutElement;
use ptouch::layout::parse_layout_script;

fn script_from_str(input: &str) -> Vec<String> {
    input.split_whitespace().map(|s| s.to_string()).collect()
}

fn parse_test_script(input: &str) -> Result<LayoutElement, PtouchError> {
    let script = script_from_str(input);
    parse_layout_script(&script)
}

fn assert_parse_result(input: &str, expected: &str) {
    let result = parse_test_script(input);
    assert!(
        result.is_ok(),
        "Failed to parse '{}': {}",
        input,
        result.err().unwrap().message()
    );
    let element = result.unwrap();
    assert_eq!(
        element.describe(),
        expected,
        "Parsing '{}' produced wrong structure",
        input
    );
}

#[test]
fn test_single_text() {
    assert_parse_result("Happy Birthday", "Text(Happy,Birthday)");
}

#[test]
fn test_horizontal_layout() {
    assert_parse_result("Happy + Birthday", "Row(Text(Happy),Text(Birthday))");
}

#[test]
fn test_mixed_elements() {
    assert_parse_result(
        "Hello World + To You",
        "Row(Text(Hello,World),Text(To,You))",
    );
}

#[test]
fn test_qr_code() {
    assert_parse_result("qrc:example.com", "QrCode(example.com)");
}

// Tests for nested bracket syntax
#[test]
fn test_simple_nested_layout() {
    // [A + B] C -> Column(Row(A,B),C)
    assert_parse_result("[ A + B ] C", "Column(Row(Text(A),Text(B)),Text(C))");
}

#[test]
fn test_multiple_nested_layout() {
    // [A + B] [C + D] -> Column(Row(A,B),Row(C,D))
    assert_parse_result(
        "[ A + B ] [ C + D ]",
        "Column(Row(Text(A),Text(B)),Row(Text(C),Text(D)))",
    );
}

#[test]
fn test_nested_with_horizontal_layout() {
    // [A + B] + [C + D] -> Row(Row(A,B),Row(C,D))
    assert_parse_result(
        "[ A + B ] + [ C + D ]",
        "Row(Row(Text(A),Text(B)),Row(Text(C),Text(D)))",
    );
}

#[test]
fn test_nested_with_qr_code() {
    // Title [qrc:example.com + contact@example.com] -> Column(Text(Title),Row(QrCode,Text))
    assert_parse_result(
        "Title [ qrc:example.com + contact@example.com ]",
        "Column(Text(Title),Row(QrCode(example.com),Text(contact@example.com)))",
    );
}

// Tests for error cases
#[test]
fn test_unmatched_closing_bracket() {
    // A ] -> Should error
    let result = parse_test_script("A ]");
    assert!(result.is_err());
    let error_msg = result.err().unwrap().message();
    assert!(error_msg.contains("Syntax error at Position 2, Token: ]"));
}

#[test]
fn test_unmatched_opening_bracket() {
    // [ A -> Should error (missing ])
    let result = parse_test_script("[ A");
    assert!(result.is_err());
    let error_msg = result.err().unwrap().message();
    assert!(error_msg.contains("Expected ']' at End of input"));
}

#[test]
fn test_empty_brackets() {
    // [ ] -> Should error (empty column)
    let result = parse_test_script("[ ]");
    assert!(result.is_err());
    let error_msg = result.err().unwrap().message();
    assert!(error_msg.contains("No COLUMN"));
}

#[test]
fn test_nested_bracket_mismatch() {
    // [ A [ B ] -> Should error (missing ] for first [)
    let result = parse_test_script("[ A [ B ]");
    assert!(result.is_err());
    let error_msg = result.err().unwrap().message();
    assert!(error_msg.contains("Expected ']' at End of input"));
}

#[test]
fn test_extra_closing_bracket() {
    // [ A + B ] ] -> Should error (extra ])
    let result = parse_test_script("[ A + B ] ]");
    assert!(result.is_err());
    let error_msg = result.err().unwrap().message();
    assert!(error_msg.contains("Syntax error at Position 6, Token: ]"));
}

#[test]
fn test_empty_script() {
    // Empty script -> Should error
    let result = parse_test_script("");
    assert!(result.is_err());
    let error_msg = result.err().unwrap().message();
    assert!(error_msg.contains("Empty layout script"));
}

// Tests for Gap element
#[test]
fn test_gap_element_with_dimensions() {
    assert_parse_result("gap:30x40", "Gap(30x40)");
}

#[test]
fn test_gap_element_square() {
    assert_parse_result("gap:25", "Gap(25x25)");
}

#[test]
fn test_gap_in_horizontal_layout() {
    assert_parse_result(
        "Hello + gap:10x0 + World",
        "Row(Text(Hello),Gap(10x0),Text(World))",
    );
}

#[test]
fn test_gap_in_vertical_layout() {
    assert_parse_result(
        "Title gap:0x5 Body",
        "Column(Text(Title),Gap(0x5),Text(Body))",
    );
}

#[test]
fn test_gap_with_qr_code() {
    assert_parse_result(
        "qrc:example.com + gap:5x5 + Contact",
        "Row(QrCode(example.com),Gap(5x5),Text(Contact))",
    );
}

#[test]
fn test_invalid_gap_spec() {
    let result = parse_test_script("gap:invalid");
    assert!(result.is_err());
    let error_msg = result.err().unwrap().message();
    assert!(error_msg.contains("Invalid gap/box spec: invalid"));
}

#[test]
fn test_invalid_gap_width() {
    let result = parse_test_script("gap:invalidx20");
    assert!(result.is_err());
    let error_msg = result.err().unwrap().message();
    assert!(error_msg.contains("Invalid gap/box spec 'invalidx20'"));
}

#[test]
fn test_invalid_gap_height() {
    let result = parse_test_script("gap:20xinvalid");
    assert!(result.is_err());
    let error_msg = result.err().unwrap().message();
    assert!(error_msg.contains("Invalid gap/box spec '20xinvalid'"));
}

#[test]
fn test_box_element_with_dimensions() {
    assert_parse_result("box:30x40", "Box(30x40)");
}

#[test]
fn test_box_element_square() {
    assert_parse_result("box:25", "Box(25x25)");
}

// Tests for Overlay element (layer support)
#[test]
fn test_single_layer() {
    // Single layer should not create Overlay
    assert_parse_result("Hello World", "Text(Hello,World)");
}

#[test]
fn test_simple_overlay() {
    // Two layers separated by "/"
    assert_parse_result("Hello / World", "Overlay(Text(Hello),Text(World))");
}

#[test]
fn test_overlay_with_complex_layers() {
    // Complex layers with Row and Column
    assert_parse_result(
        "box:100x50 / Title Content",
        "Overlay(Box(100x50),Text(Title,Content))",
    );
}

#[test]
fn test_overlay_with_horizontal_layout() {
    // Overlay with horizontal layouts
    assert_parse_result(
        "A + B / C + D",
        "Overlay(Row(Text(A),Text(B)),Row(Text(C),Text(D)))",
    );
}

#[test]
fn test_overlay_with_brackets() {
    // Overlay with bracket grouping
    assert_parse_result(
        "[ A + B ] / [ C + D ]",
        "Overlay(Row(Text(A),Text(B)),Row(Text(C),Text(D)))",
    );
}

#[test]
fn test_overlay_with_qr_code() {
    // Overlay with QR code and text
    assert_parse_result(
        "qrc:example.com / Contact Info",
        "Overlay(QrCode(example.com),Text(Contact,Info))",
    );
}

#[test]
fn test_three_layer_overlay() {
    // Three layers
    assert_parse_result(
        "Background / Middle / Foreground",
        "Overlay(Text(Background),Text(Middle),Text(Foreground))",
    );
}

#[test]
fn test_overlay_with_gap() {
    // Overlay with gap elements
    assert_parse_result(
        "gap:50x20 / Hello World",
        "Overlay(Gap(50x20),Text(Hello,World))",
    );
}

// Error cases for overlay
#[test]
fn test_empty_layer_error() {
    // Empty layer before "/" should error
    let result = parse_test_script("Hello / / World");
    assert!(result.is_err());
    let error_msg = result.err().unwrap().message();
    assert!(error_msg.contains("No COLUMN"));
}

#[test]
fn test_trailing_slash_error() {
    // Trailing "/" should error
    let result = parse_test_script("Hello /");
    assert!(result.is_err());
    let error_msg = result.err().unwrap().message();
    assert!(error_msg.contains("No COLUMN"));
}

// Unsupported prefixed elements and QR payload limits
#[test]
fn test_barcode_not_implemented() {
    let result = parse_test_script("bar:12345");
    assert!(result.is_err());
    let error_msg = result.err().unwrap().message();
    assert!(error_msg.contains("Barcode not yet implemented: 12345"));
}

#[test]
fn test_image_not_implemented() {
    let result = parse_test_script("img:logo.png");
    assert!(result.is_err());
    let error_msg = result.err().unwrap().message();
    assert!(error_msg.contains("Image not yet implemented: logo.png"));
}

#[test]
fn test_qr_payload_too_long_rejected() {
    // no QR code version holds this payload, so the parser must reject it;
    // this would pass if the encodability check were not consulted at all
    let mut script = String::from("qrc:");
    for _ in 0..8000 {
        script.push('7');
    }
    let result = parse_test_script(&script);
    assert!(result.is_err());
    let error_msg = result.err().unwrap().message();
    assert!(error_msg.contains("Cannot encode QR code data"));
}

#[test]
fn test_txt_prefix_stripped() {
    assert_parse_result("txt:Hello txt:World", "Text(Hello,World)");
}
