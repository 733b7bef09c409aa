use laser_cam::gcode::GcodeBlock;
use laser_cam::gcode::GcodeBuilder;
use laser_cam::gcode::GcodeInstruction;

#[test]
fn coordinate_instructions_use_six_decimals() {
    assert_eq!(GcodeInstruction::X(12_500_000).text(), "X12.500000");
    assert_eq!(GcodeInstruction::Y(-1_000_000).text(), "Y-1.000000");
    assert_eq!(GcodeInstruction::X(0).text(), "X0.000000");
    assert_eq!(GcodeInstruction::Y(123_456).text(), "Y0.123456");
}

#[test]
fn letter_instructions_have_no_decimal_point() {
    assert_eq!(GcodeInstruction::M(3).text(), "M3");
    assert_eq!(GcodeInstruction::G(54).text(), "G54");
    assert_eq!(GcodeInstruction::S(1000).text(), "S1000");
    assert_eq!(GcodeInstruction::F(400).text(), "F400");
    assert_eq!(GcodeInstruction::Custom(String::from("M3 S100")).text(), "M3 S100");
}

#[test]
fn block_with_codes_and_comment() {
    let mut block = GcodeBlock::default();
    block.push(GcodeInstruction::G(1));
    block.push(GcodeInstruction::X(1_000_000));
    block.add_comment("cut");
    assert_eq!(block.len(), 2);
    assert_eq!(block.text(), "G1 X1.000000 (cut)");
}

#[test]
fn block_with_only_a_comment() {
    let mut block = GcodeBlock::default();
    block.add_comment("note");
    assert_eq!(block.text(), "(note)");
}

#[test]
fn second_comment_joins_with_a_semicolon() {
    let mut block = GcodeBlock::default();
    block.add_comment("first");
    block.add_comment("second");
    assert_eq!(block.text(), "(first; second)");
}

#[test]
fn finish_appends_the_program_end_block() {
    let mut b = GcodeBuilder::default();
    b.rapid_motion();
    b.x(0);
    b.y(0);
    b.eob();
    // `finish` consumes the builder, so a document is finished exactly
    // once; afterwards the builder is gone by construction.
    let text = b.finish();
    assert_eq!(text, "G0 X0.000000 Y0.000000\nM30\n");
}

#[test]
fn finish_flushes_a_pending_block_with_codes() {
    let mut b = GcodeBuilder::default();
    b.cutting_motion();
    b.laser_power(10);
    let text = b.finish();
    assert_eq!(text, "G1 S10\nM30\n");
}

#[test]
fn finish_flushes_a_pending_comment_only_block() {
    let mut b = GcodeBuilder::default();
    b.comment("pending note");
    let text = b.finish();
    assert_eq!(text, "(pending note)\nM30\n");
}

#[test]
fn default_header_and_coolant_codes() {
    let mut b = GcodeBuilder::default();
    b.default_header();
    b.coolant(true);
    b.eob();
    b.coolant(false);
    b.eob();
    let text = b.finish();
    assert_eq!(text, "G54 G17 G21 G90 G94\nM8\nM9\nM30\n");
}

#[test]
fn laser_modes_and_motions() {
    let mut b = GcodeBuilder::default();
    b.cutting_motion();
    b.laser_on_const();
    b.eob();
    b.cutting_motion();
    b.laser_on_dyn();
    b.eob();
    b.cutting_motion();
    b.laser_off();
    b.eob();
    b.comment_block("done");
    let text = b.finish();
    assert_eq!(text, "G1 M3\nG1 M4\nG1 M5\n(done)\nM30\n");
}

#[test]
fn extreme_coordinates_keep_six_decimals() {
    assert_eq!(
        GcodeInstruction::X(-2_000_000_000_000).text(),
        "X-2000000.000000"
    );
    assert_eq!(GcodeInstruction::Y(999_999).text(), "Y0.999999");
    assert_eq!(GcodeInstruction::X(-1).text(), "X-0.000001");
}

#[test]
fn decimal_helpers_format_plain_numbers() {
    assert_eq!(laser_cam::decimal::dec_string(0), "0");
    assert_eq!(laser_cam::decimal::dec_string(90210), "90210");
    assert_eq!(laser_cam::decimal::fixed_string(12_500_000), "12.500000");
    assert_eq!(laser_cam::decimal::fixed_string(-500_000), "-0.500000");
}
