use hayabusa_evtx::dump::{
    output_format_from_name, overwrite_decision, plan_output_file, resolve_dump_options,
    OptionWarning, OutputFilePlan, OverwriteDecision, RecordErrorAction,
};
use hayabusa_evtx::{EvtxOutputFormat, Ranges, RecordOutput};

#[test]
fn format_names() {
    assert!(output_format_from_name("xml") == EvtxOutputFormat::XML);
    assert!(output_format_from_name("json") == EvtxOutputFormat::JSON);
    assert!(output_format_from_name("jsonl") == EvtxOutputFormat::JSON);
    assert!(output_format_from_name("yaml") == EvtxOutputFormat::XML);
}

#[test]
fn jsonl_implies_no_indent_and_no_record_number() {
    let o = resolve_dump_options("jsonl", false, false, 4, true);
    assert!(o.output_format == EvtxOutputFormat::JSON);
    assert!(!o.indent);
    assert!(!o.show_record_number);
    assert_eq!(o.num_threads, 4);
    assert!(o.warnings.is_empty());
}

#[test]
fn redundant_flags_with_jsonl_warn() {
    let o = resolve_dump_options("jsonl", true, true, 0, true);
    assert!(!o.indent);
    assert!(!o.show_record_number);
    assert_eq!(
        o.warnings,
        vec![OptionWarning::RedundantNoIndent, OptionWarning::RedundantNoShowRecordNumber]
    );
}

#[test]
fn xml_defaults_indent_and_show_record_number() {
    let o = resolve_dump_options("xml", false, false, 0, true);
    assert!(o.output_format == EvtxOutputFormat::XML);
    assert!(o.indent);
    assert!(o.show_record_number);
    let o = resolve_dump_options("json", true, true, 0, true);
    assert!(!o.indent);
    assert!(!o.show_record_number);
    assert!(o.warnings.is_empty());
}

#[test]
fn without_multithreading_one_thread_is_used() {
    let o = resolve_dump_options("xml", false, false, 8, false);
    assert_eq!(o.num_threads, 1);
    assert_eq!(o.warnings, vec![OptionWarning::NoMultithreading]);
}

#[test]
fn record_lines_with_header_and_allocation() {
    let out = RecordOutput {
        show_record_number: true,
        display_allocation: true,
        stop_after_error: false,
        ranges: None,
    };
    let lines = out.record_lines(1, 1203, "Allocated", "<Event/>");
    assert_eq!(lines, vec!["Record 1203 [Allocated]".to_string(), "<Event/>".to_string()]);
}

#[test]
fn record_lines_without_allocation_or_header() {
    let out = RecordOutput {
        show_record_number: true,
        display_allocation: false,
        stop_after_error: false,
        ranges: None,
    };
    assert_eq!(out.record_lines(1, 0, "x", "d"), vec!["Record 0".to_string(), "d".to_string()]);
    let out = RecordOutput {
        show_record_number: false,
        display_allocation: true,
        stop_after_error: false,
        ranges: None,
    };
    assert_eq!(
        out.record_lines(1, u64::MAX, "x", "{}"),
        vec!["[x]".to_string(), "{}".to_string()]
    );
    let out = RecordOutput {
        show_record_number: false,
        display_allocation: false,
        stop_after_error: false,
        ranges: None,
    };
    assert_eq!(out.record_lines(1, u64::MAX, "x", "{}"), vec!["{}".to_string()]);
    let out = RecordOutput {
        show_record_number: true,
        display_allocation: false,
        stop_after_error: false,
        ranges: None,
    };
    assert_eq!(
        out.record_lines(1, u64::MAX, "x", "")[0],
        "Record 18446744073709551615"
    );
}

#[test]
fn only_records_in_ranges_are_printed() {
    let out = RecordOutput {
        show_record_number: false,
        display_allocation: false,
        stop_after_error: false,
        ranges: Some(Ranges::from_str("2-3,7").unwrap()),
    };
    assert!(out.record_lines(1, 500, "a", "one").is_empty());
    assert_eq!(out.record_lines(2, 1, "a", "two"), vec!["two".to_string()]);
    assert_eq!(out.record_lines(3, 9, "a", "three"), vec!["three".to_string()]);
    assert!(out.record_lines(5, 7, "a", "five").is_empty());
    assert_eq!(out.record_lines(7, 2, "a", "seven"), vec!["seven".to_string()]);
}

#[test]
fn failed_records_stop_only_when_asked() {
    let mut out = RecordOutput {
        show_record_number: true,
        display_allocation: false,
        stop_after_error: false,
        ranges: None,
    };
    assert_eq!(out.on_record_error(), RecordErrorAction::Continue);
    out.stop_after_error = true;
    assert_eq!(out.on_record_error(), RecordErrorAction::Exit);
}

#[test]
fn output_file_plans() {
    assert_eq!(plan_output_file(true, true, true, Some(true)), OutputFilePlan::RefuseDirectory);
    assert_eq!(plan_output_file(false, true, true, Some(true)), OutputFilePlan::ConfirmOverwrite);
    assert_eq!(plan_output_file(false, true, false, Some(true)), OutputFilePlan::Overwrite);
    assert_eq!(plan_output_file(false, false, true, Some(true)), OutputFilePlan::CreateFile);
    assert_eq!(
        plan_output_file(false, false, true, Some(false)),
        OutputFilePlan::CreateParentsThenFile
    );
    assert_eq!(plan_output_file(false, false, false, None), OutputFilePlan::RefuseRoot);
}

#[test]
fn overwrite_answers() {
    assert_eq!(overwrite_decision(Some(true)), OverwriteDecision::Overwrite);
    assert_eq!(overwrite_decision(Some(false)), OverwriteDecision::Cancelled);
    assert_eq!(overwrite_decision(None), OverwriteDecision::PromptFailed);
}

#[test]
fn jsonl_settings_equal_json_with_both_flags() {
    for (no_indent, no_show) in [(false, false), (true, false), (false, true), (true, true)] {
        let a = resolve_dump_options("jsonl", no_indent, no_show, 3, true);
        let b = resolve_dump_options("json", true, true, 3, true);
        assert!(a.output_format == b.output_format);
        assert_eq!(a.indent, b.indent);
        assert_eq!(a.show_record_number, b.show_record_number);
        assert_eq!(a.num_threads, b.num_threads);
    }
}

#[test]
fn allocation_status_shown_without_record_numbers() {
    let out = RecordOutput {
        show_record_number: false,
        display_allocation: true,
        stop_after_error: false,
        ranges: None,
    };
    assert_eq!(
        out.record_lines(1, 9, "Unallocated", "{\"Event\":{}}"),
        vec!["[Unallocated]".to_string(), "{\"Event\":{}}".to_string()]
    );
    assert_ne!(out.record_lines(1, 9, "Allocated", "d"), out.record_lines(1, 9, "Unallocated", "d"));
}

#[test]
fn events_one_selects_the_first_record_in_the_file() {
    let out = RecordOutput {
        show_record_number: true,
        display_allocation: false,
        stop_after_error: false,
        ranges: Some(Ranges::from_str("1").unwrap()),
    };
    assert_eq!(
        out.record_lines(1, 7, "a", "first"),
        vec!["Record 7".to_string(), "first".to_string()]
    );
    assert!(out.record_lines(2, 1, "a", "second").is_empty());
}
