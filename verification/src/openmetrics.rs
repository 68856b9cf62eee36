//! Text forms of a metrics snapshot: the OpenMetrics exposition and the
//! lifecycle log.

use vstd::prelude::*;
use vstd::string::*;

use crate::metrics::{
    CacheErrorClass, CacheOperation, CacheStatus, MetricsSnapshot, OperationMetricsSnapshot, RequestResultClass,
    StateTransition, ERROR_CLASS_COUNT, LATENCY_BUCKET_COUNT, LATENCY_BUCKET_UPPER_US, OPERATION_COUNT, RESULT_CLASS_COUNT,
};

verus! {

// ---------------------------------------------------------------------------
// Numbers
// ---------------------------------------------------------------------------

/// A decimal digit.
pub open spec fn digit(value: nat) -> char {
    if value == 0 {
        '0'
    } else if value == 1 {
        '1'
    } else if value == 2 {
        '2'
    } else if value == 3 {
        '3'
    } else if value == 4 {
        '4'
    } else if value == 5 {
        '5'
    } else if value == 6 {
        '6'
    } else if value == 7 {
        '7'
    } else if value == 8 {
        '8'
    } else {
        '9'
    }
}

/// A number in decimal, without leading zeros.
pub open spec fn decimal(value: nat) -> Seq<char>
    decreases value,
{
    if value < 10 {
        seq![digit(value)]
    } else {
        decimal(value / 10).push(digit(value % 10))
    }
}

/// The lowest `width` decimal digits of a number.
pub open spec fn padded(value: nat, width: nat) -> Seq<char>
    decreases width,
{
    if width == 0 {
        seq![]
    } else {
        padded(value / 10, (width - 1) as nat).push(digit(value % 10))
    }
}

/// Microseconds as seconds, with six decimals.
pub open spec fn seconds(microseconds: u64) -> Seq<char> {
    decimal((microseconds / 1_000_000) as nat) + "."@ + padded((microseconds % 1_000_000) as nat, 6)
}

/// What a digit stands for.
pub open spec fn digit_value(symbol: char) -> nat {
    if symbol == '0' {
        0
    } else if symbol == '1' {
        1
    } else if symbol == '2' {
        2
    } else if symbol == '3' {
        3
    } else if symbol == '4' {
        4
    } else if symbol == '5' {
        5
    } else if symbol == '6' {
        6
    } else if symbol == '7' {
        7
    } else if symbol == '8' {
        8
    } else {
        9
    }
}

/// The number that a text of digits stands for.
pub open spec fn number_of(text: Seq<char>) -> nat
    decreases text.len(),
{
    if text.len() == 0 {
        0
    } else {
        number_of(text.drop_last()) * 10 + digit_value(text.last())
    }
}

/// A number that is written out reads back as the same number.
pub proof fn law_decimal_reads_back(value: nat)
    ensures
        number_of(decimal(value)) == value,
    decreases value,
{
    if value < 10 {
        assert(decimal(value).drop_last() =~= Seq::<char>::empty());
        assert(number_of(Seq::<char>::empty()) == 0);
    } else {
        law_decimal_reads_back(value / 10);
        assert(decimal(value).drop_last() =~= decimal(value / 10));
    }
}

/// Appends a digit.
fn append_digit(output: &mut String, value: u64)
    requires
        value < 10,
    ensures
        final(output)@ == old(output)@.push(digit(value as nat)),
{
    proof {
        reveal_strlit("0");
        reveal_strlit("1");
        reveal_strlit("2");
        reveal_strlit("3");
        reveal_strlit("4");
        reveal_strlit("5");
        reveal_strlit("6");
        reveal_strlit("7");
        reveal_strlit("8");
        reveal_strlit("9");
    }
    let text = if value == 0 {
        "0"
    } else if value == 1 {
        "1"
    } else if value == 2 {
        "2"
    } else if value == 3 {
        "3"
    } else if value == 4 {
        "4"
    } else if value == 5 {
        "5"
    } else if value == 6 {
        "6"
    } else if value == 7 {
        "7"
    } else if value == 8 {
        "8"
    } else {
        "9"
    };
    assert(text@ =~= seq![digit(value as nat)]);
    output.append(text);
    assert(output@ =~= old(output)@.push(digit(value as nat)));
}

/// Appends a number in decimal.
pub fn append_decimal(output: &mut String, value: u64)
    ensures
        final(output)@ == old(output)@ + decimal(value as nat),
    decreases value,
{
    if value >= 10 {
        append_decimal(output, value / 10);
    }
    append_digit(output, value % 10);
    assert(output@ =~= old(output)@ + decimal(value as nat));
}

/// Appends the lowest digits of a number.
fn append_padded(output: &mut String, value: u64, width: u64)
    ensures
        final(output)@ == old(output)@ + padded(value as nat, width as nat),
    decreases width,
{
    if width > 0 {
        append_padded(output, value / 10, width - 1);
        append_digit(output, value % 10);
    }
    assert(output@ =~= old(output)@ + padded(value as nat, width as nat));
}

/// Appends microseconds as seconds.
pub fn append_seconds(output: &mut String, microseconds: u64)
    ensures
        final(output)@ == old(output)@ + seconds(microseconds),
{
    append_decimal(output, microseconds / 1_000_000);
    output.append(".");
    append_padded(output, microseconds % 1_000_000, 6);
    assert(output@ =~= old(output)@ + seconds(microseconds));
}

/// A yes or no as a number.
pub open spec fn bit(set: bool) -> u64 {
    if set {
        1
    } else {
        0
    }
}

/// A yes or no as a number.
fn flag(set: bool) -> (value: u64)
    ensures
        value == bit(set),
{
    if set {
        1
    } else {
        0
    }
}

// ---------------------------------------------------------------------------
// Lines
// ---------------------------------------------------------------------------

/// A text with a counter's lines.
pub open spec fn with_counter(text: Seq<char>, name: Seq<char>, value: u64) -> Seq<char> {
    text + "# TYPE "@ + name + " counter\n"@ + name + " "@ + decimal(value as nat) + "\n"@
}

/// A text with a gauge's lines.
pub open spec fn with_gauge(text: Seq<char>, name: Seq<char>, value: u64) -> Seq<char> {
    text + "# TYPE "@ + name + " gauge\n"@ + name + " "@ + decimal(value as nat) + "\n"@
}

/// A text with the line for the wait for a resource.
pub open spec fn with_wait(text: Seq<char>, resource: Seq<char>, wait_ns: u64) -> Seq<char> {
    text + "cache_rs_backpressure_wait_ns_total{resource=\""@ + resource + "\"} "@ + decimal(wait_ns as nat) + "\n"@
}

/// A text with the line for one lifecycle state.
pub open spec fn with_status(text: Seq<char>, status: CacheStatus, current: CacheStatus) -> Seq<char> {
    text + "cache_rs_status{state=\""@ + status.text() + "\"} "@ + decimal(bit(status == current) as nat) + "\n"@
}

fn write_counter(output: &mut String, name: &str, value: u64)
    ensures
        final(output)@ == with_counter(old(output)@, name@, value),
{
    output.append("# TYPE ");
    output.append(name);
    output.append(" counter\n");
    output.append(name);
    output.append(" ");
    append_decimal(output, value);
    output.append("\n");
}

fn write_gauge(output: &mut String, name: &str, value: u64)
    ensures
        final(output)@ == with_gauge(old(output)@, name@, value),
{
    output.append("# TYPE ");
    output.append(name);
    output.append(" gauge\n");
    output.append(name);
    output.append(" ");
    append_decimal(output, value);
    output.append("\n");
}

fn write_wait(output: &mut String, resource: &str, wait_ns: u64)
    ensures
        final(output)@ == with_wait(old(output)@, resource@, wait_ns),
{
    output.append("cache_rs_backpressure_wait_ns_total{resource=\"");
    output.append(resource);
    output.append("\"} ");
    append_decimal(output, wait_ns);
    output.append("\n");
}

fn write_status(output: &mut String, status: CacheStatus, current: CacheStatus)
    ensures
        final(output)@ == with_status(old(output)@, status, current),
{
    output.append("cache_rs_status{state=\"");
    output.append(status.as_str());
    output.append("\"} ");
    append_decimal(output, flag(status == current));
    output.append("\n");
}

// ---------------------------------------------------------------------------
// Requests by result and by error
// ---------------------------------------------------------------------------

/// A text with the lines for an operation's first `count` result classes. A
/// class that never occurred has no line.
pub open spec fn results_after(text: Seq<char>, operation: OperationMetricsSnapshot, count: nat) -> Seq<char>
    decreases count,
{
    if count == 0 {
        text
    } else {
        let before = results_after(text, operation, (count - 1) as nat);
        let class = RequestResultClass::every()[count - 1];
        let value = operation.results@[class.number()];
        if value != 0 {
            before + "cache_rs_requests_total{operation=\""@ + operation.operation.text() + "\",result=\""@ + class.text()
                + "\"} "@ + decimal(value as nat) + "\n"@
        } else {
            before
        }
    }
}

/// A text with the lines for an operation's first `count` error classes.
pub open spec fn errors_after(text: Seq<char>, operation: OperationMetricsSnapshot, count: nat) -> Seq<char>
    decreases count,
{
    if count == 0 {
        text
    } else {
        let before = errors_after(text, operation, (count - 1) as nat);
        let class = CacheErrorClass::every()[count - 1];
        let value = operation.errors@[class.number()];
        if value != 0 {
            before + "cache_rs_request_errors_total{operation=\""@ + operation.operation.text() + "\",class=\""@ + class.text()
                + "\"} "@ + decimal(value as nat) + "\n"@
        } else {
            before
        }
    }
}

/// A text with the results of the first `count` operations.
pub open spec fn all_results_after(text: Seq<char>, operations: Seq<OperationMetricsSnapshot>, count: nat) -> Seq<char>
    decreases count,
{
    if count == 0 {
        text
    } else {
        results_after(all_results_after(text, operations, (count - 1) as nat), operations[count - 1], 12)
    }
}

/// One line on requests: how often an operation had a result.
pub struct RequestLine {
    pub operation: CacheOperation,
    pub class: RequestResultClass,
    pub value: u64,
}

impl RequestLine {
    /// The line as text.
    pub open spec fn text(self) -> Seq<char> {
        "cache_rs_requests_total{operation=\""@ + self.operation.text() + "\",result=\""@ + self.class.text() + "\"} "@
            + decimal(self.value as nat) + "\n"@
    }
}

/// The lines as text.
pub open spec fn lines_text(lines: Seq<RequestLine>) -> Seq<char>
    decreases lines.len(),
{
    if lines.len() == 0 {
        Seq::empty()
    } else {
        lines_text(lines.drop_last()) + lines.last().text()
    }
}

/// The lines of an operation's first `count` result classes.
pub open spec fn operation_lines(operation: OperationMetricsSnapshot, count: nat) -> Seq<RequestLine>
    decreases count,
{
    if count == 0 {
        Seq::empty()
    } else {
        let before = operation_lines(operation, (count - 1) as nat);
        let class = RequestResultClass::every()[count - 1];
        let value = operation.results@[class.number()];
        if value != 0 {
            before.push(RequestLine { operation: operation.operation, class, value })
        } else {
            before
        }
    }
}

/// The lines of the first `count` operations.
pub open spec fn request_lines(operations: Seq<OperationMetricsSnapshot>, count: nat) -> Seq<RequestLine>
    decreases count,
{
    if count == 0 {
        Seq::empty()
    } else {
        request_lines(operations, (count - 1) as nat) + operation_lines(operations[count - 1], 12)
    }
}

proof fn lemma_lines_text_adds(first: Seq<RequestLine>, second: Seq<RequestLine>)
    ensures
        lines_text(first + second) == lines_text(first) + lines_text(second),
    decreases second.len(),
{
    if second.len() == 0 {
        assert(first + second =~= first);
        assert(lines_text(first) + lines_text(second) =~= lines_text(first));
    } else {
        assert((first + second).drop_last() =~= first + second.drop_last());
        lemma_lines_text_adds(first, second.drop_last());
        assert(lines_text(first + second) =~= lines_text(first) + lines_text(second));
    }
}

proof fn lemma_joined(before: Seq<char>, one: Seq<char>, two: Seq<char>, three: Seq<char>)
    ensures
        before + one + two + three == before + (one + two + three),
{
    assert(before + one + two + three =~= before + (one + two + three));
}

/// Text that is added piece by piece is added at once.
proof fn lemma_line_joined(before: Seq<char>, line: RequestLine)
    ensures
        before + "cache_rs_requests_total{operation=\""@ + line.operation.text() + "\",result=\""@ + line.class.text()
            + "\"} "@ + decimal(line.value as nat) + "\n"@ == before + line.text(),
{
    let head = "cache_rs_requests_total{operation=\""@ + line.operation.text() + "\",result=\""@;
    let middle = line.class.text();
    let after = "\"} "@;
    let number = decimal(line.value as nat);
    lemma_joined(before, "cache_rs_requests_total{operation=\""@, line.operation.text(), "\",result=\""@);
    lemma_joined(before, head, middle, after);
    lemma_joined(before, head + middle + after, number, "\n"@);
}

proof fn lemma_operation_lines(text: Seq<char>, operation: OperationMetricsSnapshot, count: nat)
    requires
        count <= 12,
    ensures
        results_after(text, operation, count) == text + lines_text(operation_lines(operation, count)),
    decreases count,
{
    if count == 0 {
        assert(text + lines_text(operation_lines(operation, count)) =~= text);
    } else {
        lemma_operation_lines(text, operation, (count - 1) as nat);
        let before = operation_lines(operation, (count - 1) as nat);
        let class = RequestResultClass::every()[count - 1];
        let value = operation.results@[class.number()];
        if value != 0 {
            let line = RequestLine { operation: operation.operation, class, value };
            assert(before.push(line).drop_last() =~= before);
            lemma_line_joined(text + lines_text(before), line);
            let empty = Seq::<char>::empty();
            lemma_joined(text, lines_text(before), line.text(), empty);
            assert(text + lines_text(before) + line.text() + empty =~= text + lines_text(before) + line.text());
            assert(lines_text(before) + line.text() + empty =~= lines_text(before) + line.text());
        }
    }
}

proof fn lemma_request_lines(text: Seq<char>, operations: Seq<OperationMetricsSnapshot>, count: nat)
    ensures
        all_results_after(text, operations, count) == text + lines_text(request_lines(operations, count)),
    decreases count,
{
    if count == 0 {
        assert(text + lines_text(request_lines(operations, count)) =~= text);
    } else {
        let before = request_lines(operations, (count - 1) as nat);
        let added = operation_lines(operations[count - 1], 12);
        lemma_request_lines(text, operations, (count - 1) as nat);
        lemma_operation_lines(text + lines_text(before), operations[count - 1], 12);
        lemma_lines_text_adds(before, added);
        assert(text + lines_text(before) + lines_text(added) =~= text + (lines_text(before) + lines_text(added)));
    }
}

proof fn lemma_class_of_number(number: int)
    requires
        0 <= number < 12,
    ensures
        RequestResultClass::every()[number].number() == number,
        forall|class: RequestResultClass| #[trigger] class.number() == number ==> class == RequestResultClass::every()[number],
{
}

proof fn lemma_operation_line(operation: OperationMetricsSnapshot, count: nat, line: RequestLine)
    requires
        count <= 12,
    ensures
        operation_lines(operation, count).contains(line) <==> {
            &&& line.operation == operation.operation
            &&& line.class.number() < count
            &&& line.value == operation.results@[line.class.number()]
            &&& line.value != 0
        },
    decreases count,
{
    if count > 0 {
        lemma_operation_line(operation, (count - 1) as nat, line);
        lemma_class_of_number(count - 1);
        let before = operation_lines(operation, (count - 1) as nat);
        let class = RequestResultClass::every()[count - 1];
        let value = operation.results@[class.number()];
        let last = RequestLine { operation: operation.operation, class, value };
        let lines = before.push(last);
        if value != 0 {
            assert(lines[before.len() as int] == last);
            if before.contains(line) {
                let at = choose|at: int| 0 <= at < before.len() && before[at] == line;
                assert(lines[at] == line);
            }
            if lines.contains(line) {
                let at = choose|at: int| 0 <= at < lines.len() && lines[at] == line;
                if at < before.len() {
                    assert(before[at] == line);
                }
            }
        }
    }
}

/// The request lines of a snapshot are one line for each operation and result
/// class that occurred, with its count, and none for those that did not.
pub proof fn law_request_lines_are_the_results_that_occurred(snapshot: MetricsSnapshot, text: Seq<char>, line: RequestLine)
    ensures
        all_results_after(text, snapshot.operations@, 6) == text + lines_text(request_lines(snapshot.operations@, 6)),
        request_lines(snapshot.operations@, 6).contains(line) <==> line.value != 0 && exists|k: int|
            0 <= k < 6 && (#[trigger] snapshot.operations@[k]).operation == line.operation && line.value
                == snapshot.operations@[k].results@[line.class.number()],
{
    lemma_request_lines(text, snapshot.operations@, 6);
    lemma_lines_of_operations(snapshot.operations@, 6, line);
}

/// Where the operations stand in their order, as they do in every snapshot that
/// is taken, an operation has a line for a result class exactly if its count of
/// that class is not zero.
pub proof fn law_taken_snapshot_has_one_line_per_result(snapshot: MetricsSnapshot, line: RequestLine)
    requires
        forall|k: int| 0 <= k < 6 ==> (#[trigger] snapshot.operations@[k]).operation == CacheOperation::every()[k],
    ensures
        request_lines(snapshot.operations@, 6).contains(line) <==> {
            &&& line.value == snapshot.operations@[line.operation.number()].results@[line.class.number()]
            &&& line.value != 0
        },
{
    let operations = snapshot.operations@;
    lemma_lines_of_operations(operations, 6, line);
    let at = line.operation.number();
    assert(CacheOperation::every()[at] == line.operation);
    assert forall|k: int| 0 <= k < 6 && #[trigger] CacheOperation::every()[k] == line.operation implies k == at by {
        assert(CacheOperation::every()[k].number() == k);
    }
    if exists|k: int|
        0 <= k < 6 && (#[trigger] operations[k]).operation == line.operation && line.value == operations[k].results@[line.class.number()] {
        let k = choose|k: int|
            0 <= k < 6 && (#[trigger] operations[k]).operation == line.operation && line.value
                == operations[k].results@[line.class.number()];
        assert(CacheOperation::every()[k] == line.operation);
    }
    assert(operations[at].operation == line.operation);
}

proof fn lemma_lines_of_operations(operations: Seq<OperationMetricsSnapshot>, count: nat, line: RequestLine)
    ensures
        request_lines(operations, count).contains(line) <==> line.value != 0 && exists|k: int|
            0 <= k < count && (#[trigger] operations[k]).operation == line.operation && line.value
                == operations[k].results@[line.class.number()],
    decreases count,
{
    if count > 0 {
        let before = request_lines(operations, (count - 1) as nat);
        let added = operation_lines(operations[count - 1], 12);
        lemma_lines_of_operations(operations, (count - 1) as nat, line);
        lemma_operation_line(operations[count - 1], 12, line);
        let lines = before + added;
        if before.contains(line) {
            let at = choose|at: int| 0 <= at < before.len() && before[at] == line;
            assert(lines[at] == line);
        }
        if added.contains(line) {
            let at = choose|at: int| 0 <= at < added.len() && added[at] == line;
            assert(lines[before.len() + at] == line);
        }
        if lines.contains(line) {
            let at = choose|at: int| 0 <= at < lines.len() && lines[at] == line;
            if at < before.len() {
                assert(before[at] == line);
            } else {
                assert(added[at - before.len()] == line);
            }
        }
    }
}

/// A text with the errors of the first `count` operations.
pub open spec fn all_errors_after(text: Seq<char>, operations: Seq<OperationMetricsSnapshot>, count: nat) -> Seq<char>
    decreases count,
{
    if count == 0 {
        text
    } else {
        errors_after(all_errors_after(text, operations, (count - 1) as nat), operations[count - 1], 12)
    }
}

fn write_results(output: &mut String, operation: &OperationMetricsSnapshot)
    ensures
        final(output)@ == results_after(old(output)@, *operation, 12),
{
    let classes = RequestResultClass::all();
    let mut index: usize = 0;
    while index < RESULT_CLASS_COUNT
        invariant
            index <= 12,
            classes@ == RequestResultClass::every(),
            output@ == results_after(old(output)@, *operation, index as nat),
        decreases 12 - index,
    {
        let class = classes[index];
        let value = operation.result_count(class);
        if value != 0 {
            output.append("cache_rs_requests_total{operation=\"");
            output.append(operation.operation.as_str());
            output.append("\",result=\"");
            output.append(class.as_str());
            output.append("\"} ");
            append_decimal(output, value);
            output.append("\n");
        }
        index = index + 1;
    }
}

fn write_errors(output: &mut String, operation: &OperationMetricsSnapshot)
    ensures
        final(output)@ == errors_after(old(output)@, *operation, 12),
{
    let classes = CacheErrorClass::all();
    let mut index: usize = 0;
    while index < ERROR_CLASS_COUNT
        invariant
            index <= 12,
            classes@ == CacheErrorClass::every(),
            output@ == errors_after(old(output)@, *operation, index as nat),
        decreases 12 - index,
    {
        let class = classes[index];
        let value = operation.error_count(class);
        if value != 0 {
            output.append("cache_rs_request_errors_total{operation=\"");
            output.append(operation.operation.as_str());
            output.append("\",class=\"");
            output.append(class.as_str());
            output.append("\"} ");
            append_decimal(output, value);
            output.append("\n");
        }
        index = index + 1;
    }
}

// ---------------------------------------------------------------------------
// Latency histograms
// ---------------------------------------------------------------------------

/// How many requests the first `count` buckets hold together, as far as a
/// counter holds it.
pub open spec fn cumulative(counts: Seq<u64>, count: nat) -> u64
    decreases count,
{
    if count == 0 {
        0
    } else {
        let before = cumulative(counts, (count - 1) as nat);
        if before + counts[count - 1] > u64::MAX {
            u64::MAX
        } else {
            (before + counts[count - 1]) as u64
        }
    }
}

/// Cumulative counts do not fall from bucket to bucket.
pub proof fn law_buckets_are_cumulative(counts: Seq<u64>, first: nat, second: nat)
    requires
        first <= second <= counts.len(),
    ensures
        cumulative(counts, first) <= cumulative(counts, second),
    decreases second,
{
    if first < second {
        law_buckets_are_cumulative(counts, first, (second - 1) as nat);
    }
}

/// The last bucket counts every request, as long as their number fits into a
/// counter.
pub proof fn law_last_bucket_counts_every_request(telemetry: crate::metrics::OperationTelemetry)
    requires
        telemetry.wf(),
        crate::metrics::sum_of(telemetry.buckets@) <= u64::MAX,
    ensures
        cumulative(telemetry.buckets@, 25) == telemetry.count,
{
    assert(telemetry.buckets@.take(25) =~= telemetry.buckets@);
    lemma_cumulative_sticks(telemetry.buckets@, 25);
}

/// Each bucket carries the sum of the counts up to it, as far as a counter holds
/// it.
pub proof fn law_buckets_carry_prefix_sums(operation: OperationMetricsSnapshot, count: nat)
    requires
        count <= 25,
    ensures
        cumulative(operation.latency.bucket_counts@, count) == if crate::metrics::sum_of(
            operation.latency.bucket_counts@.take(count as int),
        ) <= u64::MAX {
            crate::metrics::sum_of(operation.latency.bucket_counts@.take(count as int))
        } else {
            u64::MAX as int
        },
{
    lemma_cumulative_sticks(operation.latency.bucket_counts@, count);
}

/// The bucket without an upper bound carries the total of all the buckets, as
/// far as a counter holds it.
pub proof fn law_unbounded_bucket_carries_the_total(operation: OperationMetricsSnapshot)
    ensures
        cumulative(operation.latency.bucket_counts@, 25) == if crate::metrics::sum_of(operation.latency.bucket_counts@)
            <= u64::MAX {
            crate::metrics::sum_of(operation.latency.bucket_counts@)
        } else {
            u64::MAX as int
        },
{
    let counts = operation.latency.bucket_counts@;
    assert(counts.take(25) =~= counts);
    lemma_cumulative_sticks(counts, 25);
}

proof fn lemma_cumulative_sticks(counts: Seq<u64>, count: nat)
    requires
        count <= counts.len(),
    ensures
        cumulative(counts, count) == if crate::metrics::sum_of(counts.take(count as int)) <= u64::MAX {
            crate::metrics::sum_of(counts.take(count as int))
        } else {
            u64::MAX as int
        },
    decreases count,
{
    if count > 0 {
        assert(counts.take(count as int).drop_last() =~= counts.take(count - 1));
        lemma_cumulative_sticks(counts, (count - 1) as nat);
    }
}

/// A text with an operation's first `count` bounded buckets.
pub open spec fn buckets_after(text: Seq<char>, operation: OperationMetricsSnapshot, count: nat) -> Seq<char>
    decreases count,
{
    if count == 0 {
        text
    } else {
        buckets_after(text, operation, (count - 1) as nat) + "cache_rs_request_duration_seconds_bucket{operation=\""@
            + operation.operation.text() + "\",le=\""@ + seconds(LATENCY_BUCKET_UPPER_US@[count - 1]) + "\"} "@ + decimal(
            cumulative(operation.latency.bucket_counts@, count) as nat,
        ) + "\n"@
    }
}

/// A text with an operation's histogram.
pub open spec fn latency_after(text: Seq<char>, operation: OperationMetricsSnapshot) -> Seq<char> {
    let name = operation.operation.text();
    buckets_after(text, operation, 24) + "cache_rs_request_duration_seconds_bucket{operation=\""@ + name
        + "\",le=\"+Inf\"} "@ + decimal(cumulative(operation.latency.bucket_counts@, 25) as nat) + "\n"@
        + "cache_rs_request_duration_seconds_sum{operation=\""@ + name + "\"} "@ + seconds(operation.latency.sum_us) + "\n"@
        + "cache_rs_request_duration_seconds_count{operation=\""@ + name + "\"} "@ + decimal(operation.latency.count as nat)
        + "\n"@
}

/// A text with the histograms of the first `count` operations.
pub open spec fn all_latencies_after(text: Seq<char>, operations: Seq<OperationMetricsSnapshot>, count: nat) -> Seq<char>
    decreases count,
{
    if count == 0 {
        text
    } else {
        latency_after(all_latencies_after(text, operations, (count - 1) as nat), operations[count - 1])
    }
}

fn write_latency(output: &mut String, operation: &OperationMetricsSnapshot)
    ensures
        final(output)@ == latency_after(old(output)@, *operation),
{
    let name = operation.operation.as_str();
    let bounds = LATENCY_BUCKET_UPPER_US;
    let mut total: u64 = 0;
    let mut index: usize = 0;
    while index < 24
        invariant
            index <= 24,
            bounds == LATENCY_BUCKET_UPPER_US,
            name@ == operation.operation.text(),
            total == cumulative(operation.latency.bucket_counts@, index as nat),
            output@ == buckets_after(old(output)@, *operation, index as nat),
        decreases 24 - index,
    {
        total = total.saturating_add(operation.latency.bucket_counts[index]);
        output.append("cache_rs_request_duration_seconds_bucket{operation=\"");
        output.append(name);
        output.append("\",le=\"");
        append_seconds(output, bounds[index]);
        output.append("\"} ");
        append_decimal(output, total);
        output.append("\n");
        index = index + 1;
    }
    total = total.saturating_add(operation.latency.bucket_counts[LATENCY_BUCKET_COUNT - 1]);
    output.append("cache_rs_request_duration_seconds_bucket{operation=\"");
    output.append(name);
    output.append("\",le=\"+Inf\"} ");
    append_decimal(output, total);
    output.append("\n");
    output.append("cache_rs_request_duration_seconds_sum{operation=\"");
    output.append(name);
    output.append("\"} ");
    append_seconds(output, operation.latency.sum_us);
    output.append("\n");
    output.append("cache_rs_request_duration_seconds_count{operation=\"");
    output.append(name);
    output.append("\"} ");
    append_decimal(output, operation.latency.count);
    output.append("\n");
}

// ---------------------------------------------------------------------------
// The exposition
// ---------------------------------------------------------------------------

/// How many lifecycle transitions there have been: the number of the last one.
pub open spec fn last_sequence(transitions: Seq<StateTransition>) -> u64 {
    if transitions.len() == 0 {
        0
    } else {
        transitions.last().sequence
    }
}

impl MetricsSnapshot {
    /// A text with the lines on the lifecycle state.
    #[verifier::opaque]
    pub open spec fn status_after(&self, text: Seq<char>) -> Seq<char> {
        let text = text + "# HELP cache_rs_up Whether the cache can serve normal traffic.\n"@ + "# TYPE cache_rs_up gauge\n"@
            + "cache_rs_up "@ + decimal(bit(self.status == CacheStatus::Healthy) as nat) + "\n"@
            + "# HELP cache_rs_status Current cache lifecycle state.\n"@ + "# TYPE cache_rs_status gauge\n"@;
        let text = with_status(text, CacheStatus::Healthy, self.status);
        let text = with_status(text, CacheStatus::MissOnly, self.status);
        let text = with_status(text, CacheStatus::Poisoned, self.status);
        with_status(text, CacheStatus::Closed, self.status)
    }

    /// A text with the lines on requests: results, errors and latencies.
    #[verifier::opaque]
    pub open spec fn requests_after(&self, text: Seq<char>) -> Seq<char> {
        let text = text + "# HELP cache_rs_requests_total Cache API results by operation.\n"@
            + "# TYPE cache_rs_requests_total counter\n"@;
        let text = all_results_after(text, self.operations@, 6);
        let text = text + "# HELP cache_rs_request_errors_total Cache API errors by class.\n"@
            + "# TYPE cache_rs_request_errors_total counter\n"@;
        let text = all_errors_after(text, self.operations@, 6);
        let text = text + "# HELP cache_rs_request_duration_seconds Cache API latency by operation.\n"@
            + "# TYPE cache_rs_request_duration_seconds histogram\n"@;
        all_latencies_after(text, self.operations@, 6)
    }

    /// A text with the request and I/O counters.
    #[verifier::opaque]
    pub open spec fn io_counters_after(&self, text: Seq<char>) -> Seq<char> {
        let text = with_counter(text, "cache_rs_hits_total"@, self.stats.hits);
        let text = with_counter(text, "cache_rs_misses_total"@, self.stats.misses);
        let text = with_counter(text, "cache_rs_puts_total"@, self.stats.puts);
        let text = with_counter(text, "cache_rs_removes_total"@, self.stats.removes);
        let text = with_counter(text, "cache_rs_rejected_total"@, self.stats.rejected);
        let text = with_counter(text, "cache_rs_io_errors_total"@, self.stats.io_errors);
        let text = with_counter(text, "cache_rs_corrupt_records_total"@, self.stats.corrupt_records);
        let text = with_counter(text, "cache_rs_checkpoint_errors_total"@, self.stats.checkpoint_errors);
        let text = with_counter(text, "cache_rs_host_write_bytes_total"@, self.stats.host_write_bytes);
        let text = with_counter(text, "cache_rs_bytes_read_total"@, self.stats.bytes_read);
        let text = with_counter(text, "cache_rs_foreground_record_bytes_total"@, self.stats.foreground_record_bytes);
        let text = with_counter(text, "cache_rs_reinsertion_bytes_total"@, self.stats.reinsertion_bytes);
        let text = with_counter(text, "cache_rs_checkpoint_write_bytes_total"@, self.stats.checkpoint_write_bytes);
        let text = with_counter(text, "cache_rs_queue_rejections_total"@, self.stats.queue_rejections);
        with_counter(text, "cache_rs_buffer_rejections_total"@, self.stats.buffer_rejections)
    }

    /// A text with the waits for each resource.
    #[verifier::opaque]
    pub open spec fn wait_counters_after(&self, text: Seq<char>) -> Seq<char> {
        let text = text + "# TYPE cache_rs_backpressure_wait_ns_total counter\n"@;
        let text = with_wait(text, "read_queue"@, self.stats.read_queue_wait_ns);
        let text = with_wait(text, "write_queue"@, self.stats.write_queue_wait_ns);
        let text = with_wait(text, "control_queue"@, self.stats.control_queue_wait_ns);
        let text = with_wait(text, "read_buffer"@, self.stats.read_buffer_wait_ns);
        let text = with_wait(text, "write_buffer"@, self.stats.write_buffer_wait_ns);
        let text = with_wait(text, "control_buffer"@, self.stats.control_buffer_wait_ns);
        with_wait(text, "metadata_buffer"@, self.stats.metadata_buffer_wait_ns)
    }

    /// A text with the counters of background work and origin fills.
    #[verifier::opaque]
    pub open spec fn background_counters_after(&self, text: Seq<char>) -> Seq<char> {
        let text = with_counter(text, "cache_rs_reclaim_backlog_rejections_total"@, self.stats.reclaim_backlog_rejections);
        let text = with_counter(text, "cache_rs_background_regions_reclaimed_total"@, self.stats.background_regions_reclaimed);
        let text = with_counter(text, "cache_rs_reclaim_records_scanned_total"@, self.stats.reclaim_records_scanned);
        let text = with_counter(text, "cache_rs_reclaim_index_fallbacks_total"@, self.stats.reclaim_index_fallbacks);
        let text = with_counter(text, "cache_rs_origin_fill_attempts_total"@, self.origin_fills.attempts);
        let text = with_counter(text, "cache_rs_origin_fill_admitted_total"@, self.origin_fills.admitted);
        let text = with_counter(text, "cache_rs_origin_fill_rate_limited_total"@, self.origin_fills.rate_limited);
        with_counter(text, "cache_rs_origin_fill_concurrency_limited_total"@, self.origin_fills.concurrency_limited)
    }

    /// A text with the levels.
    #[verifier::opaque]
    pub open spec fn gauges_after(&self, text: Seq<char>) -> Seq<char> {
        let text = with_gauge(text, "cache_rs_entries"@, self.stats.entries);
        let text = with_gauge(text, "cache_rs_memory_used_bytes"@, self.stats.memory_used_bytes);
        let text = with_gauge(text, "cache_rs_memory_budget_bytes"@, self.stats.memory_budget_bytes);
        let text = with_gauge(text, "cache_rs_read_queue_depth"@, self.stats.read_queue_depth);
        let text = with_gauge(text, "cache_rs_write_queue_depth"@, self.stats.write_queue_depth);
        let text = with_gauge(text, "cache_rs_io_in_flight"@, self.stats.io_in_flight);
        let text = with_gauge(text, "cache_rs_io_in_flight_peak"@, self.stats.io_in_flight_peak);
        let text = with_gauge(text, "cache_rs_origin_fills_in_flight"@, self.origin_fills.in_flight);
        let text = with_gauge(text, "cache_rs_recovery_in_progress"@, bit(self.stats.recovery_in_progress));
        let text = with_gauge(text, "cache_rs_recovery_regions_completed"@, self.stats.recovery_regions_completed);
        let text = with_gauge(text, "cache_rs_recovery_regions_total"@, self.stats.recovery_regions_total);
        let text = with_gauge(text, "cache_rs_region_valid_ratio_basis_points"@, self.stats.minimum_region_valid_ratio_bps);
        let text = with_gauge(text, "cache_rs_write_amplification_milli"@, self.stats.write_amplification_milli);
        with_gauge(text, "cache_rs_nvme_health_critical"@, bit(self.stats.nvme_health_critical))
    }

    /// The OpenMetrics exposition.
    pub open spec fn openmetrics(&self) -> Seq<char> {
        let text = self.requests_after(self.status_after(Seq::empty()));
        let text = self.wait_counters_after(self.io_counters_after(text));
        let text = self.gauges_after(self.background_counters_after(text));
        with_counter(text, "cache_rs_state_transitions_total"@, last_sequence(self.state_transitions@)) + "# EOF\n"@
    }

    fn write_status_lines(&self, output: &mut String)
        ensures
            final(output)@ == self.status_after(old(output)@),
    {
        proof {
            reveal(MetricsSnapshot::status_after);
        }
        output.append("# HELP cache_rs_up Whether the cache can serve normal traffic.\n");
        output.append("# TYPE cache_rs_up gauge\n");
        output.append("cache_rs_up ");
        append_decimal(output, flag(self.status == CacheStatus::Healthy));
        output.append("\n");
        output.append("# HELP cache_rs_status Current cache lifecycle state.\n");
        output.append("# TYPE cache_rs_status gauge\n");
        write_status(output, CacheStatus::Healthy, self.status);
        write_status(output, CacheStatus::MissOnly, self.status);
        write_status(output, CacheStatus::Poisoned, self.status);
        write_status(output, CacheStatus::Closed, self.status);
    }

    fn write_request_lines(&self, output: &mut String)
        ensures
            final(output)@ == self.requests_after(old(output)@),
    {
        proof {
            reveal(MetricsSnapshot::requests_after);
        }
        output.append("# HELP cache_rs_requests_total Cache API results by operation.\n");
        output.append("# TYPE cache_rs_requests_total counter\n");
        let ghost start = output@;
        let mut index: usize = 0;
        while index < OPERATION_COUNT
            invariant
                index <= 6,
                output@ == all_results_after(start, self.operations@, index as nat),
            decreases 6 - index,
        {
            write_results(output, &self.operations[index]);
            index = index + 1;
        }
        output.append("# HELP cache_rs_request_errors_total Cache API errors by class.\n");
        output.append("# TYPE cache_rs_request_errors_total counter\n");
        let ghost middle = output@;
        index = 0;
        while index < OPERATION_COUNT
            invariant
                index <= 6,
                output@ == all_errors_after(middle, self.operations@, index as nat),
            decreases 6 - index,
        {
            write_errors(output, &self.operations[index]);
            index = index + 1;
        }
        output.append("# HELP cache_rs_request_duration_seconds Cache API latency by operation.\n");
        output.append("# TYPE cache_rs_request_duration_seconds histogram\n");
        let ghost last = output@;
        index = 0;
        while index < OPERATION_COUNT
            invariant
                index <= 6,
                output@ == all_latencies_after(last, self.operations@, index as nat),
            decreases 6 - index,
        {
            write_latency(output, &self.operations[index]);
            index = index + 1;
        }
    }

    fn write_io_counters(&self, output: &mut String)
        ensures
            final(output)@ == self.io_counters_after(old(output)@),
    {
        proof {
            reveal(MetricsSnapshot::io_counters_after);
        }
        write_counter(output, "cache_rs_hits_total", self.stats.hits);
        write_counter(output, "cache_rs_misses_total", self.stats.misses);
        write_counter(output, "cache_rs_puts_total", self.stats.puts);
        write_counter(output, "cache_rs_removes_total", self.stats.removes);
        write_counter(output, "cache_rs_rejected_total", self.stats.rejected);
        write_counter(output, "cache_rs_io_errors_total", self.stats.io_errors);
        write_counter(output, "cache_rs_corrupt_records_total", self.stats.corrupt_records);
        write_counter(output, "cache_rs_checkpoint_errors_total", self.stats.checkpoint_errors);
        write_counter(output, "cache_rs_host_write_bytes_total", self.stats.host_write_bytes);
        write_counter(output, "cache_rs_bytes_read_total", self.stats.bytes_read);
        write_counter(output, "cache_rs_foreground_record_bytes_total", self.stats.foreground_record_bytes);
        write_counter(output, "cache_rs_reinsertion_bytes_total", self.stats.reinsertion_bytes);
        write_counter(output, "cache_rs_checkpoint_write_bytes_total", self.stats.checkpoint_write_bytes);
        write_counter(output, "cache_rs_queue_rejections_total", self.stats.queue_rejections);
        write_counter(output, "cache_rs_buffer_rejections_total", self.stats.buffer_rejections);
    }

    fn write_wait_counters(&self, output: &mut String)
        ensures
            final(output)@ == self.wait_counters_after(old(output)@),
    {
        proof {
            reveal(MetricsSnapshot::wait_counters_after);
        }
        output.append("# TYPE cache_rs_backpressure_wait_ns_total counter\n");
        write_wait(output, "read_queue", self.stats.read_queue_wait_ns);
        write_wait(output, "write_queue", self.stats.write_queue_wait_ns);
        write_wait(output, "control_queue", self.stats.control_queue_wait_ns);
        write_wait(output, "read_buffer", self.stats.read_buffer_wait_ns);
        write_wait(output, "write_buffer", self.stats.write_buffer_wait_ns);
        write_wait(output, "control_buffer", self.stats.control_buffer_wait_ns);
        write_wait(output, "metadata_buffer", self.stats.metadata_buffer_wait_ns);
    }

    fn write_background_counters(&self, output: &mut String)
        ensures
            final(output)@ == self.background_counters_after(old(output)@),
    {
        proof {
            reveal(MetricsSnapshot::background_counters_after);
        }
        write_counter(output, "cache_rs_reclaim_backlog_rejections_total", self.stats.reclaim_backlog_rejections);
        write_counter(output, "cache_rs_background_regions_reclaimed_total", self.stats.background_regions_reclaimed);
        write_counter(output, "cache_rs_reclaim_records_scanned_total", self.stats.reclaim_records_scanned);
        write_counter(output, "cache_rs_reclaim_index_fallbacks_total", self.stats.reclaim_index_fallbacks);
        write_counter(output, "cache_rs_origin_fill_attempts_total", self.origin_fills.attempts);
        write_counter(output, "cache_rs_origin_fill_admitted_total", self.origin_fills.admitted);
        write_counter(output, "cache_rs_origin_fill_rate_limited_total", self.origin_fills.rate_limited);
        write_counter(output, "cache_rs_origin_fill_concurrency_limited_total", self.origin_fills.concurrency_limited);
    }

    fn write_gauges(&self, output: &mut String)
        ensures
            final(output)@ == self.gauges_after(old(output)@),
    {
        proof {
            reveal(MetricsSnapshot::gauges_after);
        }
        write_gauge(output, "cache_rs_entries", self.stats.entries);
        write_gauge(output, "cache_rs_memory_used_bytes", self.stats.memory_used_bytes);
        write_gauge(output, "cache_rs_memory_budget_bytes", self.stats.memory_budget_bytes);
        write_gauge(output, "cache_rs_read_queue_depth", self.stats.read_queue_depth);
        write_gauge(output, "cache_rs_write_queue_depth", self.stats.write_queue_depth);
        write_gauge(output, "cache_rs_io_in_flight", self.stats.io_in_flight);
        write_gauge(output, "cache_rs_io_in_flight_peak", self.stats.io_in_flight_peak);
        write_gauge(output, "cache_rs_origin_fills_in_flight", self.origin_fills.in_flight);
        write_gauge(output, "cache_rs_recovery_in_progress", flag(self.stats.recovery_in_progress));
        write_gauge(output, "cache_rs_recovery_regions_completed", self.stats.recovery_regions_completed);
        write_gauge(output, "cache_rs_recovery_regions_total", self.stats.recovery_regions_total);
        write_gauge(output, "cache_rs_region_valid_ratio_basis_points", self.stats.minimum_region_valid_ratio_bps);
        write_gauge(output, "cache_rs_write_amplification_milli", self.stats.write_amplification_milli);
        write_gauge(output, "cache_rs_nvme_health_critical", flag(self.stats.nvme_health_critical));
    }

    /// Encodes one self-contained OpenMetrics exposition.
    pub fn to_openmetrics(&self) -> (text: String)
        ensures
            text@ == self.openmetrics(),
    {
        let mut output = String::new();
        self.write_status_lines(&mut output);
        self.write_request_lines(&mut output);
        self.write_io_counters(&mut output);
        self.write_wait_counters(&mut output);
        self.write_background_counters(&mut output);
        self.write_gauges(&mut output);
        let last: u64 = if self.state_transitions.len() == 0 {
            0
        } else {
            self.state_transitions[self.state_transitions.len() - 1].sequence
        };
        write_counter(&mut output, "cache_rs_state_transitions_total", last);
        output.append("# EOF\n");
        output
    }

    /// Appends the OpenMetrics exposition to a text.
    pub fn write_openmetrics(&self, output: &mut String)
        ensures
            final(output)@ == old(output)@ + self.openmetrics(),
    {
        let text = self.to_openmetrics();
        output.append(text.as_str());
    }

    /// Appends the bounded lifecycle history, one JSON object per line.
    ///
    /// Field values are fixed engine enums; cache paths, keys, and tenant
    /// supplied strings are deliberately absent.
    pub fn write_state_log_json(&self, output: &mut String)
        ensures
            final(output)@ == log_after(old(output)@, self.state_transitions@, self.state_transitions@.len()),
    {
        let mut index: usize = 0;
        while index < self.state_transitions.len()
            invariant
                index <= self.state_transitions@.len(),
                output@ == log_after(old(output)@, self.state_transitions@, index as nat),
            decreases self.state_transitions@.len() - index,
        {
            let event = self.state_transitions[index];
            output.append("{\"schema_version\":1,\"event\":\"cache_state_change\",\"sequence\":");
            append_decimal(output, event.sequence);
            output.append(",\"unix_ms\":");
            append_decimal(output, event.unix_ms);
            output.append(",\"from\":\"");
            output.append(event.from.as_str());
            output.append("\",\"to\":\"");
            output.append(event.to.as_str());
            output.append("\",\"reason\":\"");
            output.append(event.reason.as_str());
            output.append("\"}\n");
            index = index + 1;
        }
    }

    /// The bounded lifecycle history, one JSON object per line.
    pub fn state_log_json(&self) -> (text: String)
        ensures
            text@ == log_after(Seq::empty(), self.state_transitions@, self.state_transitions@.len()),
    {
        let mut output = String::new();
        self.write_state_log_json(&mut output);
        output
    }
}

/// A text with the lines for the first `count` transitions.
pub open spec fn log_after(text: Seq<char>, transitions: Seq<StateTransition>, count: nat) -> Seq<char>
    decreases count,
{
    if count == 0 {
        text
    } else {
        let event = transitions[count - 1];
        log_after(text, transitions, (count - 1) as nat)
            + "{\"schema_version\":1,\"event\":\"cache_state_change\",\"sequence\":"@ + decimal(event.sequence as nat)
            + ",\"unix_ms\":"@ + decimal(event.unix_ms as nat) + ",\"from\":\""@ + event.from.text() + "\",\"to\":\""@
            + event.to.text() + "\",\"reason\":\""@ + event.reason.text() + "\"}\n"@
    }
}

proof fn lemma_prefix_chain(first: Seq<char>, second: Seq<char>, third: Seq<char>)
    requires
        first.is_prefix_of(second),
        second.is_prefix_of(third),
    ensures
        first.is_prefix_of(third),
{
    assert(first =~= third.subrange(0, first.len() as int));
}

proof fn lemma_prefix_of_sum(text: Seq<char>, added: Seq<char>)
    ensures
        text.is_prefix_of(text + added),
{
    assert(text =~= (text + added).subrange(0, text.len() as int));
}

proof fn lemma_errors_extend(text: Seq<char>, operation: OperationMetricsSnapshot, count: nat)
    ensures
        text.is_prefix_of(errors_after(text, operation, count)),
    decreases count,
{
    if count == 0 {
        assert(text =~= text.subrange(0, text.len() as int));
    } else {
        let before = errors_after(text, operation, (count - 1) as nat);
        lemma_errors_extend(text, operation, (count - 1) as nat);
        assert(before.is_prefix_of(errors_after(text, operation, count)));
        lemma_prefix_chain(text, before, errors_after(text, operation, count));
    }
}

proof fn lemma_all_errors_extend(text: Seq<char>, operations: Seq<OperationMetricsSnapshot>, count: nat)
    ensures
        text.is_prefix_of(all_errors_after(text, operations, count)),
    decreases count,
{
    if count == 0 {
        assert(text =~= text.subrange(0, text.len() as int));
    } else {
        let before = all_errors_after(text, operations, (count - 1) as nat);
        lemma_all_errors_extend(text, operations, (count - 1) as nat);
        lemma_errors_extend(before, operations[count - 1], 12);
        lemma_prefix_chain(text, before, all_errors_after(text, operations, count));
    }
}

proof fn lemma_buckets_extend(text: Seq<char>, operation: OperationMetricsSnapshot, count: nat)
    ensures
        text.is_prefix_of(buckets_after(text, operation, count)),
    decreases count,
{
    if count == 0 {
        assert(text =~= text.subrange(0, text.len() as int));
    } else {
        let before = buckets_after(text, operation, (count - 1) as nat);
        lemma_buckets_extend(text, operation, (count - 1) as nat);
        assert(before.is_prefix_of(buckets_after(text, operation, count)));
        lemma_prefix_chain(text, before, buckets_after(text, operation, count));
    }
}

proof fn lemma_latencies_extend(text: Seq<char>, operations: Seq<OperationMetricsSnapshot>, count: nat)
    ensures
        text.is_prefix_of(all_latencies_after(text, operations, count)),
    decreases count,
{
    if count == 0 {
        assert(text =~= text.subrange(0, text.len() as int));
    } else {
        let before = all_latencies_after(text, operations, (count - 1) as nat);
        lemma_latencies_extend(text, operations, (count - 1) as nat);
        lemma_buckets_extend(before, operations[count - 1], 24);
        let buckets = buckets_after(before, operations[count - 1], 24);
        assert(buckets.is_prefix_of(all_latencies_after(text, operations, count)));
        lemma_prefix_chain(before, buckets, all_latencies_after(text, operations, count));
        lemma_prefix_chain(text, before, all_latencies_after(text, operations, count));
    }
}

/// The section on requests starts with its heading, goes on with the request
/// lines of the snapshot and no other line, and then comes the next heading.
pub proof fn law_request_lines_stand_under_their_heading(snapshot: MetricsSnapshot, text: Seq<char>)
    ensures
        (text + "# HELP cache_rs_requests_total Cache API results by operation.\n"@
            + "# TYPE cache_rs_requests_total counter\n"@ + lines_text(request_lines(snapshot.operations@, 6))
            + "# HELP cache_rs_request_errors_total Cache API errors by class.\n"@).is_prefix_of(
            snapshot.requests_after(text),
        ),
{
    reveal(MetricsSnapshot::requests_after);
    let operations = snapshot.operations@;
    let head = text + "# HELP cache_rs_requests_total Cache API results by operation.\n"@
        + "# TYPE cache_rs_requests_total counter\n"@;
    lemma_request_lines(head, operations, 6);
    let next = head + lines_text(request_lines(operations, 6))
        + "# HELP cache_rs_request_errors_total Cache API errors by class.\n"@;
    let typed = next + "# TYPE cache_rs_request_errors_total counter\n"@;
    lemma_prefix_of_sum(next, "# TYPE cache_rs_request_errors_total counter\n"@);
    let errors = all_errors_after(typed, operations, 6);
    lemma_all_errors_extend(typed, operations, 6);
    lemma_prefix_chain(next, typed, errors);
    let timed = errors + "# HELP cache_rs_request_duration_seconds Cache API latency by operation.\n"@;
    lemma_prefix_of_sum(errors, "# HELP cache_rs_request_duration_seconds Cache API latency by operation.\n"@);
    lemma_prefix_chain(next, errors, timed);
    let latencies = timed + "# TYPE cache_rs_request_duration_seconds histogram\n"@;
    lemma_prefix_of_sum(timed, "# TYPE cache_rs_request_duration_seconds histogram\n"@);
    lemma_prefix_chain(next, timed, latencies);
    lemma_latencies_extend(latencies, operations, 6);
    lemma_prefix_chain(next, latencies, snapshot.requests_after(text));
}

/// The upper bounds of the buckets ascend.
pub proof fn law_bucket_bounds_ascend(first: int, second: int)
    requires
        0 <= first < second < 24,
    ensures
        LATENCY_BUCKET_UPPER_US@[first] < LATENCY_BUCKET_UPPER_US@[second],
{
}

proof fn lemma_status_extends(text: Seq<char>, status: CacheStatus, current: CacheStatus)
    ensures
        text.is_prefix_of(with_status(text, status, current)),
{
    assert(text =~= with_status(text, status, current).subrange(0, text.len() as int));
}

/// The exposition says that the cache is up exactly if it is healthy.
pub proof fn law_up_means_healthy(snapshot: MetricsSnapshot, text: Seq<char>)
    ensures
        (text + "# HELP cache_rs_up Whether the cache can serve normal traffic.\n"@ + "# TYPE cache_rs_up gauge\n"@
            + "cache_rs_up "@ + seq![
            if snapshot.status == CacheStatus::Healthy {
                '1'
            } else {
                '0'
            },
        ] + "\n"@).is_prefix_of(snapshot.status_after(text)),
{
    reveal(MetricsSnapshot::status_after);
    let current = snapshot.status;
    let value = decimal(bit(current == CacheStatus::Healthy) as nat);
    assert(value =~= seq![
        if current == CacheStatus::Healthy {
            '1'
        } else {
            '0'
        },
    ]);
    let up = text + "# HELP cache_rs_up Whether the cache can serve normal traffic.\n"@ + "# TYPE cache_rs_up gauge\n"@
        + "cache_rs_up "@ + value + "\n"@;
    let help = up + "# HELP cache_rs_status Current cache lifecycle state.\n"@;
    let typed = help + "# TYPE cache_rs_status gauge\n"@;
    lemma_prefix_of_sum(up, "# HELP cache_rs_status Current cache lifecycle state.\n"@);
    lemma_prefix_of_sum(help, "# TYPE cache_rs_status gauge\n"@);
    lemma_prefix_chain(up, help, typed);
    let healthy = with_status(typed, CacheStatus::Healthy, current);
    lemma_status_extends(typed, CacheStatus::Healthy, current);
    lemma_prefix_chain(up, typed, healthy);
    let miss_only = with_status(healthy, CacheStatus::MissOnly, current);
    lemma_status_extends(healthy, CacheStatus::MissOnly, current);
    lemma_prefix_chain(up, healthy, miss_only);
    let poisoned = with_status(miss_only, CacheStatus::Poisoned, current);
    lemma_status_extends(miss_only, CacheStatus::Poisoned, current);
    lemma_prefix_chain(up, miss_only, poisoned);
    lemma_status_extends(poisoned, CacheStatus::Closed, current);
    lemma_prefix_chain(up, poisoned, with_status(poisoned, CacheStatus::Closed, current));
}

proof fn lemma_ends_with(text: Seq<char>, ending: Seq<char>)
    ensures
        (text + ending).skip(text.len() as int) == ending,
{
    assert((text + ending).skip(text.len() as int) =~= ending);
}

/// The exposition ends with its end mark.
pub proof fn law_exposition_ends_with_its_mark(snapshot: MetricsSnapshot)
    ensures
        snapshot.openmetrics().len() >= "# EOF\n"@.len(),
        snapshot.openmetrics().skip(snapshot.openmetrics().len() - "# EOF\n"@.len()) == "# EOF\n"@,
{
    let requests = snapshot.requests_after(snapshot.status_after(Seq::empty()));
    let waits = snapshot.wait_counters_after(snapshot.io_counters_after(requests));
    let gauges = snapshot.gauges_after(snapshot.background_counters_after(waits));
    let body = with_counter(gauges, "cache_rs_state_transitions_total"@, last_sequence(snapshot.state_transitions@));
    lemma_ends_with(body, "# EOF\n"@);
}

// ---------------------------------------------------------------------------
// What the exposition shows
// ---------------------------------------------------------------------------

/// The digits are the characters from '0' to '9', in order.
pub proof fn law_digits(value: nat)
    requires
        value < 10,
    ensures
        digit(value) as int == '0' as int + value,
        digit_value(digit(value)) == value,
{
}

/// A number has no leading zero, and padded digits are as many as asked for and
/// read back.
pub proof fn law_numbers_are_plain(value: nat, width: nat)
    ensures
        decimal(value).len() > 0,
        value > 0 ==> decimal(value)[0] != '0',
        padded(value, width).len() == width,
        value < vstd::arithmetic::power::pow(10, width) ==> number_of(padded(value, width)) == value,
    decreases value + width,
{
    if value >= 10 {
        law_numbers_are_plain(value / 10, 0);
    }
    lemma_padded(value, width);
}

proof fn lemma_padded(value: nat, width: nat)
    ensures
        padded(value, width).len() == width,
        value < vstd::arithmetic::power::pow(10, width) ==> number_of(padded(value, width)) == value,
    decreases width,
{
    if width == 0 {
        vstd::arithmetic::power::lemma_pow0(10);
    } else {
        lemma_padded(value / 10, (width - 1) as nat);
        vstd::arithmetic::power::lemma_pow1(10);
        vstd::arithmetic::power::lemma_pow_adds(10, (width - 1) as nat, 1);
        let rest = padded(value / 10, (width - 1) as nat);
        assert(padded(value, width).drop_last() =~= rest);
        assert(digit_value(digit(value % 10)) == value % 10);
    }
}

/// A time is shown in seconds: whole ones, a point and six digits of
/// microseconds.
pub proof fn law_seconds_read_back(microseconds: u64) -> (point: int)
    ensures
        0 < point,
        seconds(microseconds).len() == point + 7,
        seconds(microseconds)[point] == '.',
        number_of(seconds(microseconds).take(point)) == microseconds / 1_000_000,
        number_of(seconds(microseconds).skip(point + 1)) == microseconds % 1_000_000,
{
    reveal_strlit(".");
    let whole = decimal((microseconds / 1_000_000) as nat);
    let rest = padded((microseconds % 1_000_000) as nat, 6);
    let point = whole.len() as int;
    law_decimal_reads_back((microseconds / 1_000_000) as nat);
    law_numbers_are_plain((microseconds / 1_000_000) as nat, 0);
    assert(vstd::arithmetic::power::pow(10, 6) == 1_000_000) by {
        reveal_with_fuel(vstd::arithmetic::power::pow, 7);
    }
    lemma_padded((microseconds % 1_000_000) as nat, 6);
    assert(seconds(microseconds).take(point) =~= whole);
    assert(seconds(microseconds).skip(point + 1) =~= rest);
    point
}

/// A metric on its own: its type, then its value.
#[verifier::opaque]
pub open spec fn metric_line(kind: Seq<char>, name: Seq<char>, value: nat) -> Seq<char> {
    "# TYPE "@ + name + kind + name + " "@ + decimal(value) + "\n"@
}

/// A time spent waiting, by what was waited for.
#[verifier::opaque]
pub open spec fn wait_line(resource: Seq<char>, value: nat) -> Seq<char> {
    "cache_rs_backpressure_wait_ns_total{resource=\""@ + resource + "\"} "@ + decimal(value) + "\n"@
}

/// Whether the cache is in a state.
#[verifier::opaque]
pub open spec fn state_line(state: Seq<char>, current: bool) -> Seq<char> {
    "cache_rs_status{state=\""@ + state + "\"} "@ + seq![
        if current {
            '1'
        } else {
            '0'
        },
    ] + "\n"@
}

proof fn lemma_metric_lines(text: Seq<char>, name: Seq<char>, value: u64)
    ensures
        with_counter(text, name, value) == text + metric_line(" counter\n"@, name, value as nat),
        with_gauge(text, name, value) == text + metric_line(" gauge\n"@, name, value as nat),
        with_wait(text, name, value) == text + wait_line(name, value as nat),
{
    reveal(metric_line);
    reveal(wait_line);
    assert(with_counter(text, name, value) =~= text + metric_line(" counter\n"@, name, value as nat));
    assert(with_gauge(text, name, value) =~= text + metric_line(" gauge\n"@, name, value as nat));
    assert(with_wait(text, name, value) =~= text + wait_line(name, value as nat));
}

/// Counters of requests and of I/O are shown under their names.
#[verifier::spinoff_prover]
pub proof fn law_io_counters_are_shown(snapshot: MetricsSnapshot, text: Seq<char>)
    ensures
        snapshot.io_counters_after(text) == text
            + metric_line(" counter\n"@, "cache_rs_hits_total"@, snapshot.stats.hits as nat)
            + metric_line(" counter\n"@, "cache_rs_misses_total"@, snapshot.stats.misses as nat)
            + metric_line(" counter\n"@, "cache_rs_puts_total"@, snapshot.stats.puts as nat)
            + metric_line(" counter\n"@, "cache_rs_removes_total"@, snapshot.stats.removes as nat)
            + metric_line(" counter\n"@, "cache_rs_rejected_total"@, snapshot.stats.rejected as nat)
            + metric_line(" counter\n"@, "cache_rs_io_errors_total"@, snapshot.stats.io_errors as nat)
            + metric_line(" counter\n"@, "cache_rs_corrupt_records_total"@, snapshot.stats.corrupt_records as nat)
            + metric_line(" counter\n"@, "cache_rs_checkpoint_errors_total"@, snapshot.stats.checkpoint_errors as nat)
            + metric_line(" counter\n"@, "cache_rs_host_write_bytes_total"@, snapshot.stats.host_write_bytes as nat)
            + metric_line(" counter\n"@, "cache_rs_bytes_read_total"@, snapshot.stats.bytes_read as nat)
            + metric_line(" counter\n"@, "cache_rs_foreground_record_bytes_total"@, snapshot.stats.foreground_record_bytes as nat)
            + metric_line(" counter\n"@, "cache_rs_reinsertion_bytes_total"@, snapshot.stats.reinsertion_bytes as nat)
            + metric_line(" counter\n"@, "cache_rs_checkpoint_write_bytes_total"@, snapshot.stats.checkpoint_write_bytes as nat)
            + metric_line(" counter\n"@, "cache_rs_queue_rejections_total"@, snapshot.stats.queue_rejections as nat)
            + metric_line(" counter\n"@, "cache_rs_buffer_rejections_total"@, snapshot.stats.buffer_rejections as nat),
{
    reveal(MetricsSnapshot::io_counters_after);
    let start = text;
    lemma_metric_lines(start, "cache_rs_hits_total"@, snapshot.stats.hits);
    let line_1 = with_counter(start, "cache_rs_hits_total"@, snapshot.stats.hits);
    lemma_metric_lines(line_1, "cache_rs_misses_total"@, snapshot.stats.misses);
    let line_2 = with_counter(line_1, "cache_rs_misses_total"@, snapshot.stats.misses);
    lemma_metric_lines(line_2, "cache_rs_puts_total"@, snapshot.stats.puts);
    let line_3 = with_counter(line_2, "cache_rs_puts_total"@, snapshot.stats.puts);
    lemma_metric_lines(line_3, "cache_rs_removes_total"@, snapshot.stats.removes);
    let line_4 = with_counter(line_3, "cache_rs_removes_total"@, snapshot.stats.removes);
    lemma_metric_lines(line_4, "cache_rs_rejected_total"@, snapshot.stats.rejected);
    let line_5 = with_counter(line_4, "cache_rs_rejected_total"@, snapshot.stats.rejected);
    lemma_metric_lines(line_5, "cache_rs_io_errors_total"@, snapshot.stats.io_errors);
    let line_6 = with_counter(line_5, "cache_rs_io_errors_total"@, snapshot.stats.io_errors);
    lemma_metric_lines(line_6, "cache_rs_corrupt_records_total"@, snapshot.stats.corrupt_records);
    let line_7 = with_counter(line_6, "cache_rs_corrupt_records_total"@, snapshot.stats.corrupt_records);
    lemma_metric_lines(line_7, "cache_rs_checkpoint_errors_total"@, snapshot.stats.checkpoint_errors);
    let line_8 = with_counter(line_7, "cache_rs_checkpoint_errors_total"@, snapshot.stats.checkpoint_errors);
    lemma_metric_lines(line_8, "cache_rs_host_write_bytes_total"@, snapshot.stats.host_write_bytes);
    let line_9 = with_counter(line_8, "cache_rs_host_write_bytes_total"@, snapshot.stats.host_write_bytes);
    lemma_metric_lines(line_9, "cache_rs_bytes_read_total"@, snapshot.stats.bytes_read);
    let line_10 = with_counter(line_9, "cache_rs_bytes_read_total"@, snapshot.stats.bytes_read);
    lemma_metric_lines(line_10, "cache_rs_foreground_record_bytes_total"@, snapshot.stats.foreground_record_bytes);
    let line_11 = with_counter(line_10, "cache_rs_foreground_record_bytes_total"@, snapshot.stats.foreground_record_bytes);
    lemma_metric_lines(line_11, "cache_rs_reinsertion_bytes_total"@, snapshot.stats.reinsertion_bytes);
    let line_12 = with_counter(line_11, "cache_rs_reinsertion_bytes_total"@, snapshot.stats.reinsertion_bytes);
    lemma_metric_lines(line_12, "cache_rs_checkpoint_write_bytes_total"@, snapshot.stats.checkpoint_write_bytes);
    let line_13 = with_counter(line_12, "cache_rs_checkpoint_write_bytes_total"@, snapshot.stats.checkpoint_write_bytes);
    lemma_metric_lines(line_13, "cache_rs_queue_rejections_total"@, snapshot.stats.queue_rejections);
    let line_14 = with_counter(line_13, "cache_rs_queue_rejections_total"@, snapshot.stats.queue_rejections);
    lemma_metric_lines(line_14, "cache_rs_buffer_rejections_total"@, snapshot.stats.buffer_rejections);
}

/// Times spent waiting are shown by what was waited for.
#[verifier::spinoff_prover]
pub proof fn law_waits_are_shown(snapshot: MetricsSnapshot, text: Seq<char>)
    ensures
        snapshot.wait_counters_after(text) == text + "# TYPE cache_rs_backpressure_wait_ns_total counter\n"@
            + wait_line("read_queue"@, snapshot.stats.read_queue_wait_ns as nat)
            + wait_line("write_queue"@, snapshot.stats.write_queue_wait_ns as nat)
            + wait_line("control_queue"@, snapshot.stats.control_queue_wait_ns as nat)
            + wait_line("read_buffer"@, snapshot.stats.read_buffer_wait_ns as nat)
            + wait_line("write_buffer"@, snapshot.stats.write_buffer_wait_ns as nat)
            + wait_line("control_buffer"@, snapshot.stats.control_buffer_wait_ns as nat)
            + wait_line("metadata_buffer"@, snapshot.stats.metadata_buffer_wait_ns as nat),
{
    reveal(MetricsSnapshot::wait_counters_after);
    let start = text + "# TYPE cache_rs_backpressure_wait_ns_total counter\n"@;
    lemma_metric_lines(start, "read_queue"@, snapshot.stats.read_queue_wait_ns);
    let line_1 = with_wait(start, "read_queue"@, snapshot.stats.read_queue_wait_ns);
    lemma_metric_lines(line_1, "write_queue"@, snapshot.stats.write_queue_wait_ns);
    let line_2 = with_wait(line_1, "write_queue"@, snapshot.stats.write_queue_wait_ns);
    lemma_metric_lines(line_2, "control_queue"@, snapshot.stats.control_queue_wait_ns);
    let line_3 = with_wait(line_2, "control_queue"@, snapshot.stats.control_queue_wait_ns);
    lemma_metric_lines(line_3, "read_buffer"@, snapshot.stats.read_buffer_wait_ns);
    let line_4 = with_wait(line_3, "read_buffer"@, snapshot.stats.read_buffer_wait_ns);
    lemma_metric_lines(line_4, "write_buffer"@, snapshot.stats.write_buffer_wait_ns);
    let line_5 = with_wait(line_4, "write_buffer"@, snapshot.stats.write_buffer_wait_ns);
    lemma_metric_lines(line_5, "control_buffer"@, snapshot.stats.control_buffer_wait_ns);
    let line_6 = with_wait(line_5, "control_buffer"@, snapshot.stats.control_buffer_wait_ns);
    lemma_metric_lines(line_6, "metadata_buffer"@, snapshot.stats.metadata_buffer_wait_ns);
}

/// Counters of background work and of origin fills are shown under their names.
#[verifier::spinoff_prover]
pub proof fn law_background_counters_are_shown(snapshot: MetricsSnapshot, text: Seq<char>)
    ensures
        snapshot.background_counters_after(text) == text
            + metric_line(" counter\n"@, "cache_rs_reclaim_backlog_rejections_total"@, snapshot.stats.reclaim_backlog_rejections as nat)
            + metric_line(" counter\n"@, "cache_rs_background_regions_reclaimed_total"@, snapshot.stats.background_regions_reclaimed as nat)
            + metric_line(" counter\n"@, "cache_rs_reclaim_records_scanned_total"@, snapshot.stats.reclaim_records_scanned as nat)
            + metric_line(" counter\n"@, "cache_rs_reclaim_index_fallbacks_total"@, snapshot.stats.reclaim_index_fallbacks as nat)
            + metric_line(" counter\n"@, "cache_rs_origin_fill_attempts_total"@, snapshot.origin_fills.attempts as nat)
            + metric_line(" counter\n"@, "cache_rs_origin_fill_admitted_total"@, snapshot.origin_fills.admitted as nat)
            + metric_line(" counter\n"@, "cache_rs_origin_fill_rate_limited_total"@, snapshot.origin_fills.rate_limited as nat)
            + metric_line(" counter\n"@, "cache_rs_origin_fill_concurrency_limited_total"@, snapshot.origin_fills.concurrency_limited as nat),
{
    reveal(MetricsSnapshot::background_counters_after);
    let start = text;
    lemma_metric_lines(start, "cache_rs_reclaim_backlog_rejections_total"@, snapshot.stats.reclaim_backlog_rejections);
    let line_1 = with_counter(start, "cache_rs_reclaim_backlog_rejections_total"@, snapshot.stats.reclaim_backlog_rejections);
    lemma_metric_lines(line_1, "cache_rs_background_regions_reclaimed_total"@, snapshot.stats.background_regions_reclaimed);
    let line_2 = with_counter(line_1, "cache_rs_background_regions_reclaimed_total"@, snapshot.stats.background_regions_reclaimed);
    lemma_metric_lines(line_2, "cache_rs_reclaim_records_scanned_total"@, snapshot.stats.reclaim_records_scanned);
    let line_3 = with_counter(line_2, "cache_rs_reclaim_records_scanned_total"@, snapshot.stats.reclaim_records_scanned);
    lemma_metric_lines(line_3, "cache_rs_reclaim_index_fallbacks_total"@, snapshot.stats.reclaim_index_fallbacks);
    let line_4 = with_counter(line_3, "cache_rs_reclaim_index_fallbacks_total"@, snapshot.stats.reclaim_index_fallbacks);
    lemma_metric_lines(line_4, "cache_rs_origin_fill_attempts_total"@, snapshot.origin_fills.attempts);
    let line_5 = with_counter(line_4, "cache_rs_origin_fill_attempts_total"@, snapshot.origin_fills.attempts);
    lemma_metric_lines(line_5, "cache_rs_origin_fill_admitted_total"@, snapshot.origin_fills.admitted);
    let line_6 = with_counter(line_5, "cache_rs_origin_fill_admitted_total"@, snapshot.origin_fills.admitted);
    lemma_metric_lines(line_6, "cache_rs_origin_fill_rate_limited_total"@, snapshot.origin_fills.rate_limited);
    let line_7 = with_counter(line_6, "cache_rs_origin_fill_rate_limited_total"@, snapshot.origin_fills.rate_limited);
    lemma_metric_lines(line_7, "cache_rs_origin_fill_concurrency_limited_total"@, snapshot.origin_fills.concurrency_limited);
}

/// Gauges are shown under their names, yes and no as one and zero.
#[verifier::spinoff_prover]
pub proof fn law_gauges_are_shown(snapshot: MetricsSnapshot, text: Seq<char>)
    ensures
        snapshot.gauges_after(text) == text
            + metric_line(" gauge\n"@, "cache_rs_entries"@, snapshot.stats.entries as nat)
            + metric_line(" gauge\n"@, "cache_rs_memory_used_bytes"@, snapshot.stats.memory_used_bytes as nat)
            + metric_line(" gauge\n"@, "cache_rs_memory_budget_bytes"@, snapshot.stats.memory_budget_bytes as nat)
            + metric_line(" gauge\n"@, "cache_rs_read_queue_depth"@, snapshot.stats.read_queue_depth as nat)
            + metric_line(" gauge\n"@, "cache_rs_write_queue_depth"@, snapshot.stats.write_queue_depth as nat)
            + metric_line(" gauge\n"@, "cache_rs_io_in_flight"@, snapshot.stats.io_in_flight as nat)
            + metric_line(" gauge\n"@, "cache_rs_io_in_flight_peak"@, snapshot.stats.io_in_flight_peak as nat)
            + metric_line(" gauge\n"@, "cache_rs_origin_fills_in_flight"@, snapshot.origin_fills.in_flight as nat)
            + metric_line(" gauge\n"@, "cache_rs_recovery_in_progress"@, if snapshot.stats.recovery_in_progress { 1 } else { 0 })
            + metric_line(" gauge\n"@, "cache_rs_recovery_regions_completed"@, snapshot.stats.recovery_regions_completed as nat)
            + metric_line(" gauge\n"@, "cache_rs_recovery_regions_total"@, snapshot.stats.recovery_regions_total as nat)
            + metric_line(" gauge\n"@, "cache_rs_region_valid_ratio_basis_points"@, snapshot.stats.minimum_region_valid_ratio_bps as nat)
            + metric_line(" gauge\n"@, "cache_rs_write_amplification_milli"@, snapshot.stats.write_amplification_milli as nat)
            + metric_line(" gauge\n"@, "cache_rs_nvme_health_critical"@, if snapshot.stats.nvme_health_critical { 1 } else { 0 }),
{
    reveal(MetricsSnapshot::gauges_after);
    let start = text;
    lemma_metric_lines(start, "cache_rs_entries"@, snapshot.stats.entries);
    let line_1 = with_gauge(start, "cache_rs_entries"@, snapshot.stats.entries);
    lemma_metric_lines(line_1, "cache_rs_memory_used_bytes"@, snapshot.stats.memory_used_bytes);
    let line_2 = with_gauge(line_1, "cache_rs_memory_used_bytes"@, snapshot.stats.memory_used_bytes);
    lemma_metric_lines(line_2, "cache_rs_memory_budget_bytes"@, snapshot.stats.memory_budget_bytes);
    let line_3 = with_gauge(line_2, "cache_rs_memory_budget_bytes"@, snapshot.stats.memory_budget_bytes);
    lemma_metric_lines(line_3, "cache_rs_read_queue_depth"@, snapshot.stats.read_queue_depth);
    let line_4 = with_gauge(line_3, "cache_rs_read_queue_depth"@, snapshot.stats.read_queue_depth);
    lemma_metric_lines(line_4, "cache_rs_write_queue_depth"@, snapshot.stats.write_queue_depth);
    let line_5 = with_gauge(line_4, "cache_rs_write_queue_depth"@, snapshot.stats.write_queue_depth);
    lemma_metric_lines(line_5, "cache_rs_io_in_flight"@, snapshot.stats.io_in_flight);
    let line_6 = with_gauge(line_5, "cache_rs_io_in_flight"@, snapshot.stats.io_in_flight);
    lemma_metric_lines(line_6, "cache_rs_io_in_flight_peak"@, snapshot.stats.io_in_flight_peak);
    let line_7 = with_gauge(line_6, "cache_rs_io_in_flight_peak"@, snapshot.stats.io_in_flight_peak);
    lemma_metric_lines(line_7, "cache_rs_origin_fills_in_flight"@, snapshot.origin_fills.in_flight);
    let line_8 = with_gauge(line_7, "cache_rs_origin_fills_in_flight"@, snapshot.origin_fills.in_flight);
    lemma_metric_lines(line_8, "cache_rs_recovery_in_progress"@, bit(snapshot.stats.recovery_in_progress));
    let line_9 = with_gauge(line_8, "cache_rs_recovery_in_progress"@, bit(snapshot.stats.recovery_in_progress));
    lemma_metric_lines(line_9, "cache_rs_recovery_regions_completed"@, snapshot.stats.recovery_regions_completed);
    let line_10 = with_gauge(line_9, "cache_rs_recovery_regions_completed"@, snapshot.stats.recovery_regions_completed);
    lemma_metric_lines(line_10, "cache_rs_recovery_regions_total"@, snapshot.stats.recovery_regions_total);
    let line_11 = with_gauge(line_10, "cache_rs_recovery_regions_total"@, snapshot.stats.recovery_regions_total);
    lemma_metric_lines(line_11, "cache_rs_region_valid_ratio_basis_points"@, snapshot.stats.minimum_region_valid_ratio_bps);
    let line_12 = with_gauge(line_11, "cache_rs_region_valid_ratio_basis_points"@, snapshot.stats.minimum_region_valid_ratio_bps);
    lemma_metric_lines(line_12, "cache_rs_write_amplification_milli"@, snapshot.stats.write_amplification_milli);
    let line_13 = with_gauge(line_12, "cache_rs_write_amplification_milli"@, snapshot.stats.write_amplification_milli);
    lemma_metric_lines(line_13, "cache_rs_nvme_health_critical"@, bit(snapshot.stats.nvme_health_critical));
}

proof fn lemma_state_line(text: Seq<char>, status: CacheStatus, current: CacheStatus)
    ensures
        with_status(text, status, current) == text + state_line(status.text(), status == current),
{
    reveal(state_line);
    assert(decimal(1) =~= seq!['1']);
    assert(decimal(0) =~= seq!['0']);
    assert(with_status(text, status, current) =~= text + state_line(status.text(), status == current));
}

/// The cache is shown as up exactly if it is healthy, and each state with
/// whether it is the current one.
pub proof fn law_states_are_shown(snapshot: MetricsSnapshot, text: Seq<char>)
    ensures
        snapshot.status_after(text) == text + "# HELP cache_rs_up Whether the cache can serve normal traffic.\n"@
            + "# TYPE cache_rs_up gauge\n"@ + "cache_rs_up "@ + seq![
            if snapshot.status is Healthy {
                '1'
            } else {
                '0'
            },
        ] + "\n"@ + "# HELP cache_rs_status Current cache lifecycle state.\n"@ + "# TYPE cache_rs_status gauge\n"@
            + state_line("healthy"@, snapshot.status is Healthy)
            + state_line("miss_only"@, snapshot.status is MissOnly)
            + state_line("poisoned"@, snapshot.status is Poisoned)
            + state_line("closed"@, snapshot.status is Closed),
{
    reveal(MetricsSnapshot::status_after);
    assert(decimal(1) =~= seq!['1']);
    assert(decimal(0) =~= seq!['0']);
    let current = snapshot.status;
    let start = text + "# HELP cache_rs_up Whether the cache can serve normal traffic.\n"@ + "# TYPE cache_rs_up gauge\n"@ + "cache_rs_up "@
        + decimal(bit(current == CacheStatus::Healthy) as nat) + "\n"@ + "# HELP cache_rs_status Current cache lifecycle state.\n"@
        + "# TYPE cache_rs_status gauge\n"@;
    lemma_state_line(start, CacheStatus::Healthy, current);
    let healthy = with_status(start, CacheStatus::Healthy, current);
    lemma_state_line(healthy, CacheStatus::MissOnly, current);
    let miss_only = with_status(healthy, CacheStatus::MissOnly, current);
    lemma_state_line(miss_only, CacheStatus::Poisoned, current);
    lemma_state_line(with_status(miss_only, CacheStatus::Poisoned, current), CacheStatus::Closed, current);
}

/// The sections follow each other, and the exposition closes with the number of
/// state transitions.
pub proof fn law_sections_follow_each_other(snapshot: MetricsSnapshot)
    ensures
        ({
            let io = snapshot.io_counters_after(snapshot.requests_after(snapshot.status_after(Seq::empty())));
            let gauges = snapshot.gauges_after(snapshot.background_counters_after(snapshot.wait_counters_after(io)));
            let transitions: nat = if snapshot.state_transitions@.len() == 0 {
                0
            } else {
                snapshot.state_transitions@.last().sequence as nat
            };
            snapshot.openmetrics() == gauges + metric_line(" counter\n"@, "cache_rs_state_transitions_total"@, transitions) + "# EOF\n"@
        }),
{
    let io = snapshot.io_counters_after(snapshot.requests_after(snapshot.status_after(Seq::empty())));
    let gauges = snapshot.gauges_after(snapshot.background_counters_after(snapshot.wait_counters_after(io)));
    lemma_metric_lines(gauges, "cache_rs_state_transitions_total"@, last_sequence(snapshot.state_transitions@));
}

/// An error that has occurred has its line, with how often; one that has not has
/// none.
pub proof fn law_errors_are_shown(text: Seq<char>, operation: OperationMetricsSnapshot, k: int)
    requires
        0 <= k < 12,
    ensures
        ({
            let before = errors_after(text, operation, k as nat);
            let after = errors_after(text, operation, (k + 1) as nat);
            let class = CacheErrorClass::every()[k];
            let value = operation.errors@[k];
            &&& value == 0 ==> after == before
            &&& value > 0 ==> after == before + "cache_rs_request_errors_total{operation=\""@ + operation.operation.text()
                + "\",class=\""@ + class.text() + "\"} "@ + decimal(value as nat) + "\n"@
        }),
        errors_after(text, operation, 0) == text,
{
    crate::metrics::law_numbers_are_places(operation.operation, RequestResultClass::Hit, CacheErrorClass::every()[k]);
}

/// Each bucket is shown with its bound in seconds and with the requests up to
/// it, then all requests, then their time and their number.
pub proof fn law_latencies_are_shown(text: Seq<char>, operation: OperationMetricsSnapshot, k: int)
    requires
        0 <= k < 24,
    ensures
        buckets_after(text, operation, 0) == text,
        buckets_after(text, operation, (k + 1) as nat) == buckets_after(text, operation, k as nat)
            + "cache_rs_request_duration_seconds_bucket{operation=\""@ + operation.operation.text() + "\",le=\""@ + seconds(
            LATENCY_BUCKET_UPPER_US@[k],
        ) + "\"} "@ + decimal(cumulative(operation.latency.bucket_counts@, (k + 1) as nat) as nat) + "\n"@,
        latency_after(text, operation) == buckets_after(text, operation, 24) + (
        "cache_rs_request_duration_seconds_bucket{operation=\""@ + operation.operation.text() + "\",le=\"+Inf\"} "@ + decimal(
            cumulative(operation.latency.bucket_counts@, 25) as nat,
        ) + "\n"@) + ("cache_rs_request_duration_seconds_sum{operation=\""@ + operation.operation.text() + "\"} "@ + seconds(
            operation.latency.sum_us,
        ) + "\n"@) + ("cache_rs_request_duration_seconds_count{operation=\""@ + operation.operation.text() + "\"} "@ + decimal(
            operation.latency.count as nat,
        ) + "\n"@),
{
    assert(latency_after(text, operation) =~= buckets_after(text, operation, 24) + (
    "cache_rs_request_duration_seconds_bucket{operation=\""@ + operation.operation.text() + "\",le=\"+Inf\"} "@ + decimal(
        cumulative(operation.latency.bucket_counts@, 25) as nat,
    ) + "\n"@) + ("cache_rs_request_duration_seconds_sum{operation=\""@ + operation.operation.text() + "\"} "@ + seconds(
        operation.latency.sum_us,
    ) + "\n"@) + ("cache_rs_request_duration_seconds_count{operation=\""@ + operation.operation.text() + "\"} "@ + decimal(
        operation.latency.count as nat,
    ) + "\n"@));
}

/// Every operation's errors and latencies are shown, in order, under their
/// headings.
pub proof fn law_operations_are_shown(snapshot: MetricsSnapshot, text: Seq<char>, k: int)
    requires
        0 <= k < 6,
    ensures
        all_errors_after(text, snapshot.operations@, 0) == text,
        all_errors_after(text, snapshot.operations@, (k + 1) as nat) == errors_after(
            all_errors_after(text, snapshot.operations@, k as nat),
            snapshot.operations@[k],
            12,
        ),
        all_latencies_after(text, snapshot.operations@, 0) == text,
        all_latencies_after(text, snapshot.operations@, (k + 1) as nat) == latency_after(
            all_latencies_after(text, snapshot.operations@, k as nat),
            snapshot.operations@[k],
        ),
        snapshot.requests_after(text) == all_latencies_after(
            all_errors_after(
                all_results_after(
                    text + "# HELP cache_rs_requests_total Cache API results by operation.\n"@
                        + "# TYPE cache_rs_requests_total counter\n"@,
                    snapshot.operations@,
                    6,
                ) + "# HELP cache_rs_request_errors_total Cache API errors by class.\n"@
                    + "# TYPE cache_rs_request_errors_total counter\n"@,
                snapshot.operations@,
                6,
            ) + "# HELP cache_rs_request_duration_seconds Cache API latency by operation.\n"@
                + "# TYPE cache_rs_request_duration_seconds histogram\n"@,
            snapshot.operations@,
            6,
        ),
{
    reveal(MetricsSnapshot::requests_after);
}

/// Every state change has one line of JSON in the log, in order.
pub proof fn law_state_log_lines(text: Seq<char>, transitions: Seq<StateTransition>, k: int)
    requires
        0 <= k < transitions.len(),
    ensures
        log_after(text, transitions, 0) == text,
        log_after(text, transitions, (k + 1) as nat) == log_after(text, transitions, k as nat)
            + "{\"schema_version\":1,\"event\":\"cache_state_change\",\"sequence\":"@ + decimal(transitions[k].sequence as nat)
            + ",\"unix_ms\":"@ + decimal(transitions[k].unix_ms as nat) + ",\"from\":\""@ + transitions[k].from.text()
            + "\",\"to\":\""@ + transitions[k].to.text() + "\",\"reason\":\""@ + transitions[k].reason.text() + "\"}\n"@,
{
}

} // verus!
