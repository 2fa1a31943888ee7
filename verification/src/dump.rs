//! The decisions of the `evtx_dump` tool: how its options combine, which
//! lines a record prints, what a failed record leads to, and how the output
//! file is opened.

use crate::ranges::{all_digits, digits_value, in_some_range, law_decimal_writes_the_number, Ranges};
use crate::text::{chars_of, decimal, push_decimal, push_str, same_text};
use crate::utf16::string_from_chars;
use vstd::prelude::*;

verus! {

broadcast use vstd::string::group_string_axioms;

/// The format in which records are printed.
#[derive(Copy, Clone, Debug, PartialOrd, PartialEq, Eq, Structural)]
pub enum EvtxOutputFormat {
    JSON,
    XML,
}

/// The format that the `--format` value `name` selects: JSON for `json` and
/// `jsonl`, XML for anything else.
pub open spec fn spec_output_format(name: Seq<char>) -> EvtxOutputFormat {
    if name == "json"@ || name == "jsonl"@ {
        EvtxOutputFormat::JSON
    } else {
        EvtxOutputFormat::XML
    }
}

/// A remark about the options, printed to standard error.
#[derive(Copy, Clone, Debug, PartialEq, Eq, Structural)]
pub enum OptionWarning {
    /// `--no-indent` was given together with `-o jsonl`, which implies it.
    RedundantNoIndent,
    /// `--dont-show-record-number` was given together with `-o jsonl`,
    /// which implies it.
    RedundantNoShowRecordNumber,
    /// Threads were asked for, but the parser was built without them.
    NoMultithreading,
}

/// The warnings that the options give, in the order they are printed.
pub open spec fn spec_option_warnings(
    format: Seq<char>,
    no_indent: bool,
    no_show_record_number: bool,
    multithreading: bool,
) -> Seq<OptionWarning> {
    let jsonl = format == "jsonl"@;
    (if no_indent && jsonl {
        seq![OptionWarning::RedundantNoIndent]
    } else {
        Seq::empty()
    }) + (if no_show_record_number && jsonl {
        seq![OptionWarning::RedundantNoShowRecordNumber]
    } else {
        Seq::empty()
    }) + (if !multithreading {
        seq![OptionWarning::NoMultithreading]
    } else {
        Seq::empty()
    })
}

/// What the options come to: the output format, whether to indent, whether
/// to show record numbers, and the number of threads. `-o jsonl` implies
/// `--no-indent` and `--dont-show-record-number`; without multithreading
/// one thread is used.
pub open spec fn spec_dump_settings(
    format: Seq<char>,
    no_indent: bool,
    no_show_record_number: bool,
    num_threads: u32,
    multithreading: bool,
) -> (EvtxOutputFormat, bool, bool, u32) {
    let jsonl = format == "jsonl"@;
    (
        spec_output_format(format),
        !(no_indent || jsonl),
        !(no_show_record_number || jsonl),
        if multithreading {
            num_threads
        } else {
            1
        },
    )
}

/// The settings that the command line options come to.
pub struct DumpOptions {
    pub output_format: EvtxOutputFormat,
    pub indent: bool,
    pub show_record_number: bool,
    pub num_threads: u32,
    pub warnings: Vec<OptionWarning>,
}

/// The `--format` value is `jsonl`.
fn is_jsonl(format: &str) -> (b: bool)
    ensures
        b == (format@ == "jsonl"@),
{
    same_text(format, "jsonl")
}

/// The format that the `--format` value `name` selects.
pub fn output_format_from_name(name: &str) -> (f: EvtxOutputFormat)
    ensures
        f == spec_output_format(name@),
{
    proof {
        reveal_strlit("xml");
        reveal_strlit("json");
        reveal_strlit("jsonl");
        assert("xml"@.len() == 3 && "json"@.len() == 4 && "jsonl"@.len() == 5);
    }
    if same_text(name, "xml") {
        EvtxOutputFormat::XML
    } else if same_text(name, "json") || same_text(name, "jsonl") {
        EvtxOutputFormat::JSON
    } else {
        EvtxOutputFormat::XML
    }
}

/// Combines the options: `-o jsonl` implies `--no-indent` and
/// `--dont-show-record-number`; without multithreading one thread is used
/// whatever was asked for.
pub fn resolve_dump_options(
    output_format: &str,
    no_indent: bool,
    no_show_record_number: bool,
    num_threads: u32,
    multithreading: bool,
) -> (o: DumpOptions)
    ensures
        (o.output_format, o.indent, o.show_record_number, o.num_threads) == spec_dump_settings(
            output_format@,
            no_indent,
            no_show_record_number,
            num_threads,
            multithreading,
        ),
        o.warnings@ == spec_option_warnings(
            output_format@,
            no_indent,
            no_show_record_number,
            multithreading,
        ),
{
    let format = output_format_from_name(output_format);
    let jsonl = is_jsonl(output_format);
    let mut warnings: Vec<OptionWarning> = Vec::new();
    let no_indent = if !no_indent {
        jsonl
    } else {
        if jsonl {
            warnings.push(OptionWarning::RedundantNoIndent);
        }
        true
    };
    let no_show = if !no_show_record_number {
        jsonl
    } else {
        if jsonl {
            warnings.push(OptionWarning::RedundantNoShowRecordNumber);
        }
        true
    };
    let threads = if multithreading {
        num_threads
    } else {
        warnings.push(OptionWarning::NoMultithreading);
        1
    };
    DumpOptions {
        output_format: format,
        indent: !no_indent,
        show_record_number: !no_show,
        num_threads: threads,
        warnings,
    }
}

/// The line printed before a record: `Record <id>`, followed by
/// ` [<allocation>]` where the allocation status is displayed.
pub open spec fn spec_record_header(
    event_record_id: u64,
    display_allocation: bool,
    allocation: Seq<char>,
) -> Seq<char> {
    "Record "@ + decimal(event_record_id as nat) + (if display_allocation {
        " ["@ + allocation + "]"@
    } else {
        Seq::empty()
    })
}

/// The line that shows a record's allocation status where record numbers
/// are hidden: `[<allocation>]`.
pub open spec fn spec_allocation_line(allocation: Seq<char>) -> Seq<char> {
    "["@ + allocation + "]"@
}

/// What is done after a record could not be read; the error is reported
/// either way.
#[derive(Copy, Clone, Debug, PartialEq, Eq, Structural)]
pub enum RecordErrorAction {
    /// Go on with the next record.
    Continue,
    /// Stop the program with exit status 1.
    Exit,
}

/// How records are printed.
pub struct RecordOutput {
    pub show_record_number: bool,
    pub display_allocation: bool,
    pub stop_after_error: bool,
    /// Where set, only the records whose position in the file (counting
    /// from 1 for the first record) lies in one of the ranges are printed.
    pub ranges: Option<Ranges>,
}

impl RecordOutput {
    /// Whether the record at `position` in the file (1 for the first
    /// record) is printed.
    pub open spec fn selects(&self, position: u64) -> bool {
        match self.ranges {
            Some(r) => in_some_range(r@, (position as usize) as int),
            None => true,
        }
    }

    /// The lines printed for the record at `position` in the file (1 for the
    /// first record), numbered `event_record_id`: none where its position
    /// is filtered out; else its header where record numbers are shown (with
    /// the allocation status where it is displayed), or the allocation status
    /// alone as `[<allocation>]` where only it is displayed; then its data.
    pub fn record_lines(&self, position: u64, event_record_id: u64, allocation: &str, data: &str) -> (lines: Vec<
        String,
    >)
        ensures
            !self.selects(position) ==> lines@.len() == 0,
            self.selects(position) && self.show_record_number ==> lines@.len() == 2
                && lines@[0]@ == spec_record_header(
                event_record_id,
                self.display_allocation,
                allocation@,
            ) && lines@[1]@ == data@,
            self.selects(position) && !self.show_record_number && self.display_allocation
                ==> lines@.len() == 2 && lines@[0]@ == spec_allocation_line(allocation@)
                && lines@[1]@ == data@,
            self.selects(position) && !self.show_record_number && !self.display_allocation
                ==> lines@.len() == 1 && lines@[0]@ == data@,
    {
        let range_filter = match &self.ranges {
            Some(ranges) => ranges.contains(&(position as usize)),
            None => true,
        };
        let mut lines: Vec<String> = Vec::new();
        if range_filter {
            if self.show_record_number {
                let mut header = chars_of("Record ");
                push_decimal(&mut header, event_record_id);
                if self.display_allocation {
                    push_str(&mut header, " [");
                    push_str(&mut header, allocation);
                    push_str(&mut header, "]");
                }
                let ghost h = header@;
                proof {
                    if self.display_allocation {
                        assert(h =~= spec_record_header(event_record_id, true, allocation@));
                    } else {
                        assert(h =~= spec_record_header(event_record_id, false, allocation@));
                    }
                }
                lines.push(string_from_chars(header));
            } else if self.display_allocation {
                let mut status = chars_of("[");
                push_str(&mut status, allocation);
                push_str(&mut status, "]");
                assert(status@ =~= spec_allocation_line(allocation@));
                lines.push(string_from_chars(status));
            }
            lines.push(data.to_owned());
        }
        lines
    }

    /// What follows a record that could not be read.
    pub fn on_record_error(&self) -> (a: RecordErrorAction)
        ensures
            a == (if self.stop_after_error {
                RecordErrorAction::Exit
            } else {
                RecordErrorAction::Continue
            }),
    {
        if self.stop_after_error {
            RecordErrorAction::Exit
        } else {
            RecordErrorAction::Continue
        }
    }
}

/// How the output file is opened.
#[derive(Copy, Clone, Debug, PartialEq, Eq, Structural)]
pub enum OutputFilePlan {
    /// A directory is in the way: refuse.
    RefuseDirectory,
    /// The file exists: ask before overwriting it.
    ConfirmOverwrite,
    /// The file exists: overwrite it.
    Overwrite,
    /// Create the missing parent directories, then the file.
    CreateParentsThenFile,
    /// Create the file.
    CreateFile,
    /// The path has no parent (it is a root): refuse.
    RefuseRoot,
}

/// The answer to the overwrite prompt and what follows from it.
#[derive(Copy, Clone, Debug, PartialEq, Eq, Structural)]
pub enum OverwriteDecision {
    /// The user agreed: overwrite the file.
    Overwrite,
    /// The user declined: stop with "Cancelled".
    Cancelled,
    /// The prompt could not be shown: stop.
    PromptFailed,
}

/// How to open the output file at a path, given whether a directory is
/// there, whether something exists there, whether to prompt before
/// overwriting, and whether the path's parent exists (none where the path
/// has no parent).
pub fn plan_output_file(is_dir: bool, exists: bool, prompt: bool, parent_exists: Option<bool>) -> (p:
    OutputFilePlan)
    ensures
        is_dir ==> p == OutputFilePlan::RefuseDirectory,
        !is_dir && exists && prompt ==> p == OutputFilePlan::ConfirmOverwrite,
        !is_dir && exists && !prompt ==> p == OutputFilePlan::Overwrite,
        !is_dir && !exists ==> p == match parent_exists {
            Some(true) => OutputFilePlan::CreateFile,
            Some(false) => OutputFilePlan::CreateParentsThenFile,
            None => OutputFilePlan::RefuseRoot,
        },
{
    if is_dir {
        return OutputFilePlan::RefuseDirectory;
    }
    if exists {
        if prompt {
            OutputFilePlan::ConfirmOverwrite
        } else {
            OutputFilePlan::Overwrite
        }
    } else {
        match parent_exists {
            Some(parent_exists) => {
                if !parent_exists {
                    OutputFilePlan::CreateParentsThenFile
                } else {
                    OutputFilePlan::CreateFile
                }
            },
            None => OutputFilePlan::RefuseRoot,
        }
    }
}

/// What the answer to the overwrite prompt leads to (`None` where the prompt
/// could not be shown).
pub fn overwrite_decision(answer: Option<bool>) -> (d: OverwriteDecision)
    ensures
        d == match answer {
            Some(true) => OverwriteDecision::Overwrite,
            Some(false) => OverwriteDecision::Cancelled,
            None => OverwriteDecision::PromptFailed,
        },
{
    match answer {
        Some(true) => OverwriteDecision::Overwrite,
        Some(false) => OverwriteDecision::Cancelled,
        None => OverwriteDecision::PromptFailed,
    }
}

/// `-o jsonl` is the same as `-o json` with `--no-indent` and
/// `--dont-show-record-number`, whatever else is given.
pub proof fn law_jsonl_is_json_without_indent_and_record_numbers(
    no_indent: bool,
    no_show_record_number: bool,
    num_threads: u32,
    multithreading: bool,
)
    ensures
        spec_dump_settings("jsonl"@, no_indent, no_show_record_number, num_threads, multithreading)
            == spec_dump_settings("json"@, true, true, num_threads, multithreading),
{
    reveal_strlit("json");
    reveal_strlit("jsonl");
    assert("json"@.len() == 4 && "jsonl"@.len() == 5);
}

/// How each option decides the settings, for every format value:
/// `--format json` and `jsonl` print JSON and anything else XML;
/// indentation is off exactly where `--no-indent` is given or the format is
/// `jsonl`; record numbers are hidden exactly where
/// `--dont-show-record-number` is given or the format is `jsonl`; and with
/// multithreading the thread count asked for is used unchanged (0 included),
/// without it one thread.
pub proof fn law_option_settings(
    format: Seq<char>,
    no_indent: bool,
    no_show_record_number: bool,
    num_threads: u32,
    multithreading: bool,
)
    ensures
        (spec_dump_settings(format, no_indent, no_show_record_number, num_threads, multithreading).0
            == EvtxOutputFormat::JSON) == (format == "json"@ || format == "jsonl"@),
        spec_dump_settings(format, no_indent, no_show_record_number, num_threads, multithreading).1
            == (!no_indent && format != "jsonl"@),
        spec_dump_settings(format, no_indent, no_show_record_number, num_threads, multithreading).2
            == (!no_show_record_number && format != "jsonl"@),
        multithreading ==> spec_dump_settings(
            format,
            no_indent,
            no_show_record_number,
            num_threads,
            multithreading,
        ).3 == num_threads,
        !multithreading ==> spec_dump_settings(
            format,
            no_indent,
            no_show_record_number,
            num_threads,
            multithreading,
        ).3 == 1,
{
}

/// Plain `json` and `xml` output is indented and shows record numbers unless
/// asked otherwise.
pub proof fn law_json_and_xml_keep_indent_and_record_numbers(num_threads: u32, multithreading: bool)
    ensures
        spec_dump_settings("json"@, false, false, num_threads, multithreading).1,
        spec_dump_settings("json"@, false, false, num_threads, multithreading).2,
        spec_dump_settings("json"@, false, false, num_threads, multithreading).0
            == EvtxOutputFormat::JSON,
        spec_dump_settings("xml"@, false, false, num_threads, multithreading).1,
        spec_dump_settings("xml"@, false, false, num_threads, multithreading).2,
        spec_dump_settings("xml"@, false, false, num_threads, multithreading).0
            == EvtxOutputFormat::XML,
{
    reveal_strlit("json");
    reveal_strlit("jsonl");
    reveal_strlit("xml");
    assert("xml"@.len() == 3 && "json"@.len() == 4 && "jsonl"@.len() == 5);
}

/// A warning is given exactly where it applies: a redundant `--no-indent` or
/// `--dont-show-record-number` only together with `jsonl`, and the missing
/// multithreading only where it is missing; none is given twice.
pub proof fn law_warnings_exactly_where_they_apply(
    format: Seq<char>,
    no_indent: bool,
    no_show_record_number: bool,
    multithreading: bool,
)
    ensures
        spec_option_warnings(format, no_indent, no_show_record_number, multithreading).contains(
            OptionWarning::RedundantNoIndent,
        ) == (no_indent && format == "jsonl"@),
        spec_option_warnings(format, no_indent, no_show_record_number, multithreading).contains(
            OptionWarning::RedundantNoShowRecordNumber,
        ) == (no_show_record_number && format == "jsonl"@),
        spec_option_warnings(format, no_indent, no_show_record_number, multithreading).contains(
            OptionWarning::NoMultithreading,
        ) == !multithreading,
        spec_option_warnings(format, no_indent, no_show_record_number, multithreading).len() == (
        if no_indent && format == "jsonl"@ {
            1int
        } else {
            0int
        }) + (if no_show_record_number && format == "jsonl"@ {
            1int
        } else {
            0int
        }) + (if !multithreading {
            1int
        } else {
            0int
        }),
{
    let w = spec_option_warnings(format, no_indent, no_show_record_number, multithreading);
    let a: Seq<OptionWarning> = if no_indent && format == "jsonl"@ {
        seq![OptionWarning::RedundantNoIndent]
    } else {
        Seq::empty()
    };
    let b: Seq<OptionWarning> = if no_show_record_number && format == "jsonl"@ {
        seq![OptionWarning::RedundantNoShowRecordNumber]
    } else {
        Seq::empty()
    };
    let c: Seq<OptionWarning> = if !multithreading {
        seq![OptionWarning::NoMultithreading]
    } else {
        Seq::empty()
    };
    assert(w == a + b + c);
    if no_indent && format == "jsonl"@ {
        assert(w[0] == OptionWarning::RedundantNoIndent);
    }
    if no_show_record_number && format == "jsonl"@ {
        assert(w[a.len() as int] == OptionWarning::RedundantNoShowRecordNumber);
    }
    if !multithreading {
        assert(w[(a.len() + b.len()) as int] == OptionWarning::NoMultithreading);
    }
    assert forall|i: int| 0 <= i < w.len() implies w[i] != OptionWarning::RedundantNoIndent || (no_indent && format == "jsonl"@) by {
        if i < a.len() {
        } else if i < a.len() + b.len() {
            assert(w[i] == b[i - a.len()]);
        } else {
            assert(w[i] == c[i - a.len() - b.len()]);
        }
    }
    assert forall|i: int| 0 <= i < w.len() implies w[i] != OptionWarning::RedundantNoShowRecordNumber || (no_show_record_number && format == "jsonl"@) by {
        if i < a.len() {
            assert(w[i] == a[i]);
        } else if i < a.len() + b.len() {
        } else {
            assert(w[i] == c[i - a.len() - b.len()]);
        }
    }
    assert forall|i: int| 0 <= i < w.len() implies w[i] != OptionWarning::NoMultithreading || !multithreading by {
        if i < a.len() {
            assert(w[i] == a[i]);
        } else if i < a.len() + b.len() {
            assert(w[i] == b[i - a.len()]);
        }
    }
}

/// A record's header is `Record `, then digits whose value is the record's
/// number, then nothing where the allocation status is not displayed, or
/// ` [`, the status and `]` where it is; a record hidden behind its status
/// line shows `[`, the status and `]`.
pub proof fn law_record_header_shows_number_and_status(event_record_id: u64, allocation: Seq<char>)
    ensures
        ({
            let plain = spec_record_header(event_record_id, false, allocation);
            &&& plain.take(7) == "Record "@
            &&& all_digits(plain.skip(7))
            &&& plain.len() > 7
            &&& digits_value(plain.skip(7)) == event_record_id
        }),
        spec_record_header(event_record_id, true, allocation) == spec_record_header(
            event_record_id,
            false,
            allocation,
        ) + " ["@ + allocation + "]"@,
        spec_allocation_line(allocation).len() == allocation.len() + 2,
        spec_allocation_line(allocation).subrange(1, allocation.len() as int + 1) == allocation,
{
    reveal_strlit("Record ");
    reveal_strlit("[");
    reveal_strlit("]");
    let d = decimal(event_record_id as nat);
    law_decimal_writes_the_number(event_record_id as nat);
    let plain = spec_record_header(event_record_id, false, allocation);
    assert(plain =~= "Record "@ + d);
    assert(plain.take(7) =~= "Record "@);
    assert(plain.skip(7) =~= d);
    assert(spec_record_header(event_record_id, true, allocation) =~= plain + " ["@ + allocation + "]"@);
    assert(spec_allocation_line(allocation).subrange(1, allocation.len() as int + 1) =~= allocation);
}

} // verus!
