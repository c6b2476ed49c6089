//! What commands write: the output of a handler, which is the answer to a request, and the error
//! stream of any command.
//!
//! An output holds a status code in its first line, then a header in each line up to an empty
//! one, then the body.

use crate::failure;
use crate::failure::{Cause, CauseModel, Failure, FailureModel, Fault};
use crate::response;
use crate::response::{Response, ResponseModel};
use crate::text;
use axum::http::header::MaxSizeReached;
use std::string::FromUtf8Error;
use vstd::prelude::*;

verus! {

// ---------------------------------------------------------------------------------------------
// Headers

/// The name that a header line writes: what stands before its first colon.
pub open spec fn key_of(line: Seq<char>) -> Seq<char> {
    line.take(text::index_of(line, ':'))
}

/// The value that a header line writes: what stands behind its first colon, without the white
/// space around it. A line without a colon has an empty value.
pub open spec fn value_of(line: Seq<char>) -> Seq<char> {
    let colon = text::index_of(line, ':');
    if colon < line.len() {
        text::trimmed(line.skip(colon + 1))
    } else {
        Seq::empty()
    }
}

/// The value that a header line writes, as bytes.
pub open spec fn value_bytes(line: Seq<char>) -> Seq<u8> {
    vstd::utf8::encode_utf8(value_of(line))
}

/// What is wrong with a header line, if anything is.
pub open spec fn line_fault(line: Seq<char>) -> Option<FailureModel> {
    let key = key_of(line);
    let value = value_of(line);
    if !response::is_header_name(key) {
        Some(
            failure::caused_error(
                "Invalid header name '"@ + key + "'"@,
                CauseModel::HeaderName,
            ),
        )
    } else if !response::is_header_value(value_bytes(line)) {
        Some(
            failure::caused_error(
                "Invalid header value '"@ + key + "': '"@ + value + "'"@,
                CauseModel::HeaderValue,
            ),
        )
    } else {
        None
    }
}

/// What is wrong with the first of some header lines with which anything is.
pub open spec fn first_fault(lines: Seq<Seq<char>>) -> Option<FailureModel>
    decreases lines.len(),
{
    if lines.len() == 0 {
        None
    } else {
        match first_fault(lines.drop_last()) {
            Some(fault) => Some(fault),
            None => line_fault(lines.last()),
        }
    }
}

/// The headers that some lines write. Of two lines with the same name, in whatever case, the later
/// one counts.
pub open spec fn headers_of(lines: Seq<Seq<char>>) -> Map<Seq<char>, Seq<Seq<u8>>>
    decreases lines.len(),
{
    if lines.len() == 0 {
        response::without_headers()
    } else {
        headers_of(lines.drop_last()).insert(
            response::lower_case(key_of(lines.last())),
            seq![value_bytes(lines.last())],
        )
    }
}

/// How many lines stand before the first empty one.
pub open spec fn lines_before_blank(lines: Seq<Seq<char>>) -> int
    decreases lines.len(),
{
    if lines.len() == 0 || lines[0].len() == 0 {
        0
    } else {
        1 + lines_before_blank(lines.skip(1))
    }
}

/// The header lines of an output with the given lines.
pub open spec fn header_lines(lines: Seq<Seq<char>>) -> Seq<Seq<char>> {
    let rest = lines.skip(1);
    rest.take(lines_before_blank(rest))
}

/// The lines of the body of an output with the given lines.
pub open spec fn body_lines(lines: Seq<Seq<char>>) -> Seq<Seq<char>> {
    let rest = lines.skip(1);
    let blank = lines_before_blank(rest);
    if blank < rest.len() {
        rest.skip(blank + 1)
    } else {
        Seq::empty()
    }
}

// ---------------------------------------------------------------------------------------------
// Outputs

/// The answer that an output with the given lines asks for.
pub open spec fn answer_of_lines(lines: Seq<Seq<char>>) -> Result<ResponseModel, FailureModel> {
    if lines.len() == 0 {
        Err(failure::internal_error("Command returned no output"@))
    } else {
        match text::number(lines[0]) {
            Some(code) if code <= u16::MAX => if !response::is_status(code) {
                Err(
                    failure::caused_error(
                        "'"@ + lines[0] + "' was not a known status code"@,
                        CauseModel::Status,
                    ),
                )
            } else {
                match first_fault(header_lines(lines)) {
                    Some(fault) => Err(fault),
                    None => Ok(
                        ResponseModel {
                            status: code as u16,
                            headers: headers_of(header_lines(lines)),
                            body: text::joined(body_lines(lines), '\n').push('\n'),
                        },
                    ),
                }
            },
            _ => Err(
                failure::caused_error(
                    "'"@ + lines[0] + "' was not a valid status code"@,
                    CauseModel::Number,
                ),
            ),
        }
    }
}

/// The answer that an output asks for.
pub open spec fn answer_of(stdout: Seq<u8>) -> Result<ResponseModel, FailureModel> {
    if vstd::utf8::valid_utf8(stdout) {
        answer_of_lines(text::lines_of(vstd::utf8::decode_utf8(stdout)))
    } else {
        Err(
            failure::caused_error("Output of command was not valid UTF-8"@, CauseModel::Output),
        )
    }
}

/// The lines before the first one with which anything is wrong.
pub open spec fn sound_lines(lines: Seq<Seq<char>>) -> Seq<Seq<char>>
    decreases lines.len(),
{
    if first_fault(lines) is None {
        lines
    } else {
        sound_lines(lines.drop_last())
    }
}

/// How many names a map holds when the last of the headers that some lines write is put into it.
pub open spec fn names_held(lines: Seq<Seq<char>>) -> nat {
    if lines.len() > 0 {
        headers_of(lines.drop_last()).dom().len()
    } else {
        0
    }
}

/// How many names the map of headers holds when the last header is put into it that stands before
/// the first header line with which anything is wrong, for an output with the given lines. Without a
/// status code there are no headers.
pub open spec fn headers_held_by_lines(lines: Seq<Seq<char>>) -> nat {
    if lines.len() > 0 && (text::number(lines[0]) matches Some(code) && response::is_status(code)) {
        names_held(sound_lines(header_lines(lines)))
    } else {
        0
    }
}

/// How many names the map of headers holds when the last header is put into it that an output asks
/// for before anything is found to be wrong.
pub open spec fn headers_held(stdout: Seq<u8>) -> nat {
    if vstd::utf8::valid_utf8(stdout) {
        headers_held_by_lines(text::lines_of(vstd::utf8::decode_utf8(stdout)))
    } else {
        0
    }
}

/// Why an output gives no answer.
#[derive(Debug)]
pub enum OutputError {
    /// The request failed.
    Failed(Failure),
    /// The map of headers ran out of room.
    TooManyHeaders(MaxSizeReached),
}

/// The view of an `OutputError`.
pub enum OutputErrorModel {
    Failed(FailureModel),
    TooManyHeaders,
}

impl View for OutputError {
    type V = OutputErrorModel;

    open spec fn view(&self) -> OutputErrorModel {
        match self {
            OutputError::Failed(fault) => OutputErrorModel::Failed(fault@),
            OutputError::TooManyHeaders(_) => OutputErrorModel::TooManyHeaders,
        }
    }
}

/// The view of what an output has come to.
pub open spec fn result_model(r: Result<Response, OutputError>) -> Result<
    ResponseModel,
    OutputErrorModel,
> {
    match r {
        Ok(answer) => Ok(answer@),
        Err(e) => Err(e@),
    }
}

/// Whether an output can come to `result`: to what it asks for, or to want of room for its headers.
/// There is room as long as the map holds no more names than `response::header_room` tells, and none
/// from `response::header_limit` on.
pub open spec fn comes_to(
    stdout: Seq<u8>,
    result: Result<ResponseModel, OutputErrorModel>,
) -> bool {
    match result {
        Ok(answer) => {
            &&& answer_of(stdout) == Ok::<ResponseModel, FailureModel>(answer)
            &&& headers_held(stdout) < response::header_limit()
        },
        Err(OutputErrorModel::Failed(fault)) => {
            &&& answer_of(stdout) == Err::<ResponseModel, FailureModel>(fault)
            &&& headers_held(stdout) < response::header_limit()
        },
        Err(OutputErrorModel::TooManyHeaders) => headers_held(stdout) > response::header_room(),
    }
}

/// The fault of a first part of the lines is the fault of the lines.
proof fn lemma_first_fault(lines: Seq<Seq<char>>, n: int)
    requires
        0 <= n <= lines.len(),
        first_fault(lines.take(n)) is Some,
    ensures
        first_fault(lines) == first_fault(lines.take(n)),
    decreases lines.len(),
{
    if n == lines.len() {
        assert(lines.take(n) == lines);
    } else {
        assert(lines.drop_last().take(n) == lines.take(n));
        lemma_first_fault(lines.drop_last(), n);
    }
}

/// The names of a first part of the lines are among the names of the lines.
proof fn lemma_headers_grow(lines: Seq<Seq<char>>, n: int)
    requires
        0 <= n <= lines.len(),
    ensures
        headers_of(lines).dom().finite(),
        headers_of(lines.take(n)).dom().len() <= headers_of(lines).dom().len(),
    decreases lines.len(),
{
    if n == lines.len() {
        assert(lines.take(n) == lines);
        if n > 0 {
            lemma_headers_grow(lines.drop_last(), n - 1);
        }
    } else {
        assert(lines.drop_last().take(n) == lines.take(n));
        lemma_headers_grow(lines.drop_last(), n);
    }
}

/// When the last of the sound lines is put into a map, it holds no fewer names than when the last of
/// any first part of the lines is that is sound.
proof fn lemma_sound_lines(lines: Seq<Seq<char>>, n: int)
    requires
        0 < n <= lines.len(),
        first_fault(lines.take(n)) is None,
    ensures
        headers_of(lines.take(n - 1)).dom().len() <= names_held(sound_lines(lines)),
    decreases lines.len(),
{
    if first_fault(lines) is None {
        assert(lines.drop_last().take(n - 1) == lines.take(n - 1));
        lemma_headers_grow(lines.drop_last(), n - 1);
    } else {
        assert(n < lines.len()) by {
            assert(lines.take(lines.len() as int) == lines);
        }
        assert(lines.drop_last().take(n) == lines.take(n));
        assert(lines.drop_last().take(n - 1) == lines.take(n - 1));
        lemma_sound_lines(lines.drop_last(), n);
    }
}

/// The sound lines are those before the first one with which anything is wrong.
proof fn lemma_sound_until(lines: Seq<Seq<char>>, n: int)
    requires
        0 <= n < lines.len(),
        first_fault(lines.take(n)) is None,
        first_fault(lines.take(n + 1)) is Some,
    ensures
        sound_lines(lines) == lines.take(n),
    decreases lines.len(),
{
    lemma_first_fault(lines, n + 1);
    let front = lines.drop_last();
    assert(front.take(n) == lines.take(n));
    if n < front.len() {
        assert(front.take(n + 1) == lines.take(n + 1));
        lemma_sound_until(front, n);
    } else {
        assert(front == lines.take(n));
        assert(sound_lines(front) == front);
    }
}

/// The lines before the first empty one are those before which none is empty, up to an empty one
/// or to the end.
proof fn lemma_lines_before_blank(lines: Seq<Seq<char>>)
    ensures
        0 <= lines_before_blank(lines) <= lines.len(),
        lines_before_blank(lines) < lines.len() ==> lines[lines_before_blank(lines)].len() == 0,
        forall|j: int| 0 <= j < lines_before_blank(lines) ==> (#[trigger] lines[j]).len() > 0,
    decreases lines.len(),
{
    if lines.len() > 0 && lines[0].len() > 0 {
        let rest = lines.skip(1);
        lemma_lines_before_blank(rest);
        assert forall|j: int| 0 <= j < lines_before_blank(lines) implies (#[trigger] lines[j]).len()
            > 0 by {
            if j > 0 {
                assert(rest[j - 1] == lines[j]);
            }
        }
    }
}

/// Puts the header that `line` writes into `headers`.
fn read_header(line: &str, headers: &mut axum::http::HeaderMap) -> (r: Result<(), OutputError>)
    ensures
        r is Ok ==> line_fault(line@) is None && response::header_contents(*final(headers))
            == response::header_contents(*old(headers)).insert(
            response::lower_case(key_of(line@)),
            seq![value_bytes(line@)],
        ) && response::header_contents(*old(headers)).dom().len() < response::header_limit(),
        r matches Err(OutputError::Failed(fault)) ==> line_fault(line@) == Some(fault@),
        r matches Err(OutputError::TooManyHeaders(_)) ==> line_fault(line@) is None
            && response::header_contents(*old(headers)).dom().len() > response::header_room(),
{
    let chars = text::characters(line);
    let colon: usize = text::find(&chars, ':');
    let key = text::text_between(&chars, 0, colon);
    assert(chars@.subrange(0, colon as int) == key_of(line@));
    let value = if colon < chars.len() {
        let from: usize = colon + 1;
        let to: usize = chars.len();
        assert(chars@.subrange(from as int, to as int) == line@.skip(from as int));
        text::trim(text::text_between(&chars, from, to).as_str())
    } else {
        String::new()
    };
    assert(value@ == value_of(line@));

    let name = match response::header_name(key.as_str()) {
        Ok(name) => name,
        Err(e) => {
            let message = text::concat2(
                text::concat2("Invalid header name '", key.as_str()).as_str(),
                "'",
            );
            return Err(
                OutputError::Failed(Failure::caused_error(message, Cause::HeaderName(e))),
            );
        },
    };
    proof {
        response::lemma_lower_case(key@);
    }
    match response::header_value(value.as_str()) {
        Err(e) => {
            let message = text::concat2(
                text::concat4("Invalid header value '", key.as_str(), "': '", value.as_str()).as_str(),
                "'",
            );
            Err(OutputError::Failed(Failure::caused_error(message, Cause::HeaderValue(e))))
        },
        Ok(bytes) => match response::insert_header(headers, name.as_str(), &bytes) {
            Ok(_) => Ok(()),
            Err(e) => Err(OutputError::TooManyHeaders(e)),
        },
    }
}

/// The answer that the output of a handler asks for.
///
/// There is none where the map of headers runs out of room. Left unsaid is whether it does where it
/// holds more names than `response::header_room` and fewer than `response::header_limit` tells: that
/// depends on how the names hash, which is not the same on every machine.
pub fn status_headers_and_content(stdout: Vec<u8>) -> (r: Result<Response, OutputError>)
    ensures
        comes_to(stdout@, result_model(r)),
{
    let output = match text::from_utf8(stdout) {
        Ok(output) => output,
        Err(e) => {
            let message = "Output of command was not valid UTF-8".to_owned();
            return Err(OutputError::Failed(Failure::caused_error(message, Cause::Output(e))));
        },
    };

    let lines = text::lines(output.as_str());
    let ghost all = text::texts(lines@);
    let ghost rest = all.skip(1);

    if lines.len() == 0 {
        let message = "Command returned no output".to_owned();
        return Err(OutputError::Failed(Failure::internal_error(message)));
    }
    let status_str = lines[0].as_str();
    assert(status_str@ == all[0]);
    let status_u16 = match text::parse_u16(status_str) {
        Ok(status_u16) => status_u16,
        Err(e) => {
            let message = text::concat2(
                text::concat2("'", status_str).as_str(),
                "' was not a valid status code",
            );
            return Err(OutputError::Failed(Failure::caused_error(message, Cause::Number(e))));
        },
    };
    let status = match response::known_status(status_u16) {
        Ok(status) => status,
        Err(e) => {
            let message = text::concat2(
                text::concat2("'", status_str).as_str(),
                "' was not a known status code",
            );
            return Err(OutputError::Failed(Failure::caused_error(message, Cause::Status(e))));
        },
    };

    let mut headers = response::no_headers();
    let mut next: usize = 1;
    proof {
        lemma_lines_before_blank(rest);
        assert(rest.take(0) == Seq::<Seq<char>>::empty());
    }
    let ghost block = header_lines(all);
    while next < lines.len() && !lines[next].as_str().is_empty()
        invariant
            1 <= next <= lines.len(),
            all == text::texts(lines@),
            rest == all.skip(1),
            block == rest.take(lines_before_blank(rest)),
            next - 1 <= lines_before_blank(rest) <= rest.len(),
            lines_before_blank(rest) < rest.len() ==> rest[lines_before_blank(rest)].len() == 0,
            all == text::lines_of(vstd::utf8::decode_utf8(stdout@)),
            block == header_lines(all),
            vstd::utf8::valid_utf8(stdout@),
            text::number(all[0]) == Some(status as nat),
            response::is_status(status as nat),
            first_fault(block.take(next - 1)) is None,
            response::header_contents(headers) == headers_of(block.take(next - 1)),
            next > 1 ==> headers_of(block.take(next - 2)).dom().len() < response::header_limit(),
        decreases lines.len() - next,
    {
        let line = lines[next].as_str();
        proof {
            assert(line@ == rest[next - 1]);
            assert(block[next - 1] == line@);
            assert(block.take(next as int).drop_last() == block.take(next - 1));
            assert(block.take(next as int).last() == line@);
        }
        match read_header(line, &mut headers) {
            Ok(_) => (),
            Err(OutputError::Failed(fault)) => {
                proof {
                    lemma_first_fault(block, next as int);
                    lemma_sound_until(block, next - 1);
                    if next > 1 {
                        assert(block.take(next - 1).drop_last() == block.take(next - 2));
                    }
                }
                return Err(OutputError::Failed(fault));
            },
            Err(OutputError::TooManyHeaders(e)) => {
                proof {
                    lemma_sound_lines(block, next as int);
                }
                return Err(OutputError::TooManyHeaders(e));
            },
        }
        next += 1;
    }
    assert(next - 1 == lines_before_blank(rest)) by {
        lemma_lines_before_blank(rest);
        if next < lines.len() {
            assert(rest[next - 1] == lines@[next as int]@);
        }
    }
    assert(block.take(next - 1) == block);
    assert(next > 1 ==> block.drop_last() == block.take(next - 2));
    if next < lines.len() {
        next += 1;
    }
    assert(all.skip(next as int) == body_lines(all));

    let mut body = text::join_from(&lines, next, '\n');
    body.push('\n');

    Ok(Response { status, headers, body })
}

// ---------------------------------------------------------------------------------------------
// Error streams

/// What the error stream of a command is shown as: its text without the white space around it, and
/// nothing where that is empty.
pub open spec fn shown(stderr: Seq<u8>) -> Option<Seq<char>> {
    let shown = text::trimmed(vstd::utf8::decode_utf8(stderr));
    if shown.len() > 0 {
        Some(shown)
    } else {
        None
    }
}

/// What to show of the error stream of a command, which fails where it is not UTF-8.
pub fn stderr_text(stderr: Vec<u8>) -> (r: Result<Option<String>, FromUtf8Error>)
    ensures
        r is Ok <==> vstd::utf8::valid_utf8(stderr@),
        r matches Ok(Some(s)) ==> shown(stderr@) == Some(s@),
        r matches Ok(None) ==> shown(stderr@) is None,
{
    match text::from_utf8(stderr) {
        Ok(err) => {
            let err = text::trim(err.as_str());
            if err.as_str().is_empty() {
                Ok(None)
            } else {
                Ok(Some(err))
            }
        },
        Err(e) => Err(e),
    }
}

// ---------------------------------------------------------------------------------------------
// What an output says is what the client gets

/// The lines of an output.
pub open spec fn output_lines(
    status: nat,
    headers: Seq<Seq<char>>,
    body: Seq<Seq<char>>,
) -> Seq<Seq<char>> {
    seq![text::decimal(status as int)] + headers + seq![Seq::empty()] + body
}

/// The text of an output: its lines, each with a line feed behind it.
pub open spec fn output_text(
    status: nat,
    headers: Seq<Seq<char>>,
    body: Seq<Seq<char>>,
) -> Seq<char> {
    text::joined(output_lines(status, headers, body), '\n').push('\n')
}

/// An output that holds a status code, sound header lines, an empty line and a body is answered
/// with that status code, with those headers and with that body.
pub proof fn law_output_is_answered(
    status: nat,
    headers: Seq<Seq<char>>,
    body: Seq<Seq<char>>,
)
    requires
        response::is_status(status),
        first_fault(headers) is None,
        forall|i: int|
            0 <= i < headers.len() ==> (#[trigger] headers[i]).len() > 0 && text::is_line(
                headers[i],
            ),
        forall|i: int| 0 <= i < body.len() ==> text::is_line(#[trigger] body[i]),
    ensures
        answer_of(vstd::utf8::encode_utf8(output_text(status, headers, body))) == Ok::<
            ResponseModel,
            FailureModel,
        >(
            ResponseModel {
                status: status as u16,
                headers: headers_of(headers),
                body: text::joined(body, '\n').push('\n'),
            },
        ),
{
    let all = output_lines(status, headers, body);
    let written = output_text(status, headers, body);
    vstd::utf8::encode_utf8_valid_utf8(written);
    vstd::utf8::encode_utf8_decode_utf8(written);
    text::lemma_number_of_decimal(status);
    assert forall|i: int| 0 <= i < all.len() implies text::is_line(#[trigger] all[i]) by {
        if i == 0 {
            text::lemma_decimal_is_line(status);
        } else if i <= headers.len() {
            assert(all[i] == headers[i - 1]);
        } else if i > headers.len() + 1 {
            assert(all[i] == body[i - headers.len() - 2]);
        }
    }
    text::law_lines_of_join(all);
    let rest = all.skip(1);
    lemma_blank_found(headers, body);
    assert(rest == headers + seq![Seq::empty()] + body);
    assert(rest.take(headers.len() as int) == headers);
    assert(rest.skip(headers.len() as int + 1) == body);
}

proof fn lemma_blank_found(headers: Seq<Seq<char>>, body: Seq<Seq<char>>)
    requires
        forall|i: int| 0 <= i < headers.len() ==> (#[trigger] headers[i]).len() > 0,
    ensures
        lines_before_blank(headers + seq![Seq::empty()] + body) == headers.len(),
    decreases headers.len(),
{
    let lines = headers + seq![Seq::empty()] + body;
    if headers.len() > 0 {
        assert(lines[0] == headers[0]);
        lemma_blank_found(headers.skip(1), body);
        assert(lines.skip(1) == headers.skip(1) + seq![Seq::empty()] + body);
    }
}

/// One line feed at the end makes no difference: an output that ends in neither a line feed nor a
/// carriage return is answered the same with a line feed behind it. Without any output at all the
/// log names another reason, and the client is told the same.
pub proof fn law_final_line_feed(stdout: Seq<u8>)
    requires
        stdout.len() > 0 ==> stdout.last() != 10 && stdout.last() != 13,
    ensures
        stdout.len() > 0 ==> answer_of(stdout.push(10)) == answer_of(stdout),
        failure::told(answer_of(stdout.push(10))) == failure::told(answer_of(stdout)),
        headers_held(stdout.push(10)) == headers_held(stdout),
{
    text::lemma_decode_push(stdout, 10);
    if vstd::utf8::valid_utf8(stdout) {
        let output = vstd::utf8::decode_utf8(stdout);
        if stdout.len() > 0 {
            text::lemma_last_byte(stdout, 10);
            text::lemma_last_byte(stdout, 13);
            text::law_final_line_feed_adds_no_line(output);
        } else {
            assert(text::pieces(output, '\n') == seq![Seq::<char>::empty()]);
            assert(output.push('\n').drop_last() == output);
            let lines = text::lines_of(output.push('\n'));
            assert(lines.len() == 1 && lines[0].len() == 0);
        }
    }
}

/// Whether it is settled that there is room for the headers of an output, or that there is none.
pub open spec fn is_settled(stdout: Seq<u8>) -> bool {
    headers_held(stdout) <= response::header_room() || headers_held(stdout)
        >= response::header_limit()
}

/// Whether an output has come to want of room for its headers.
pub open spec fn out_of_room(result: Result<ResponseModel, OutputErrorModel>) -> bool {
    result matches Err(OutputErrorModel::TooManyHeaders)
}

/// What the client is told of an output that has come to `result`: nothing, for want of room.
pub open spec fn told(result: Result<ResponseModel, OutputErrorModel>) -> Option<ResponseModel> {
    match result {
        Ok(answer) => Some(answer),
        Err(OutputErrorModel::Failed(fault)) => Some(failure::refusal(fault.fault)),
        Err(OutputErrorModel::TooManyHeaders) => None,
    }
}

/// One line feed at the end makes no difference to what an output comes to, save that where the
/// room for its headers is not settled, the one may come to want of room and the other not.
pub proof fn law_final_line_feed_in_results(
    stdout: Seq<u8>,
    without: Result<ResponseModel, OutputErrorModel>,
    with: Result<ResponseModel, OutputErrorModel>,
)
    requires
        stdout.len() > 0 ==> stdout.last() != 10 && stdout.last() != 13,
        comes_to(stdout, without),
        comes_to(stdout.push(10), with),
        is_settled(stdout) || !out_of_room(without) && !out_of_room(with),
    ensures
        stdout.len() > 0 ==> with == without,
        told(with) == told(without),
{
    law_final_line_feed(stdout);
}

/// Whether an output ends in an empty line: in two line feeds, perhaps with a carriage return
/// before the second.
pub open spec fn ends_in_empty_line(output: Seq<u8>) -> bool {
    let n = output.len();
    ||| n >= 2 && output[n - 2] == 10 && output[n - 1] == 10
    ||| n >= 3 && output[n - 3] == 10 && output[n - 2] == 13 && output[n - 1] == 10
}

/// What follows an empty line affects the body only: two outputs that are the same up to such a
/// line are answered with the same status code and the same headers, or fail in the same way. The
/// body of the answer has the lines that follow at its end.
pub proof fn law_what_follows_is_body(head: Seq<u8>, x: Seq<u8>, y: Seq<u8>)
    requires
        vstd::utf8::valid_utf8(head),
        ends_in_empty_line(head),
        vstd::utf8::valid_utf8(x),
        vstd::utf8::valid_utf8(y),
    ensures
        match (answer_of(head + x), answer_of(head + y)) {
            (Ok(first), Ok(second)) => first.status == second.status && first.headers
                == second.headers,
            (Err(first), Err(second)) => first == second,
            _ => false,
        },
        headers_held(head + x) == headers_held(head + y),
        answer_of(head + x) matches Ok(answer) ==> answer.body == text::joined(
            body_lines(text::lines_of(vstd::utf8::decode_utf8(head))) + text::lines_of(
                vstd::utf8::decode_utf8(x),
            ),
            '\n',
        ).push('\n'),
{
    lemma_lines_behind(head, x);
    lemma_lines_behind(head, y);
}

/// What follows an empty line affects the body only, in what two outputs come to that are the same up
/// to such a line, save that where the room for their headers is not settled, the one may come to
/// want of room and the other not.
pub proof fn law_what_follows_is_body_in_results(
    head: Seq<u8>,
    x: Seq<u8>,
    y: Seq<u8>,
    first: Result<ResponseModel, OutputErrorModel>,
    second: Result<ResponseModel, OutputErrorModel>,
)
    requires
        vstd::utf8::valid_utf8(head),
        ends_in_empty_line(head),
        vstd::utf8::valid_utf8(x),
        vstd::utf8::valid_utf8(y),
        comes_to(head + x, first),
        comes_to(head + y, second),
        is_settled(head + x) || !out_of_room(first) && !out_of_room(second),
    ensures
        match (first, second) {
            (Ok(first), Ok(second)) => first.status == second.status && first.headers
                == second.headers,
            (Err(first), Err(second)) => first == second,
            _ => false,
        },
{
    law_what_follows_is_body(head, x, y);
}

/// The header lines of an output are those up to an empty line, and what follows is in the body.
proof fn lemma_lines_behind(head: Seq<u8>, more: Seq<u8>)
    requires
        vstd::utf8::valid_utf8(head),
        ends_in_empty_line(head),
        vstd::utf8::valid_utf8(more),
    ensures
        vstd::utf8::valid_utf8(head + more),
        ({
            let before = text::lines_of(vstd::utf8::decode_utf8(head));
            let all = text::lines_of(vstd::utf8::decode_utf8(head + more));
            &&& before.len() > 0
            &&& all.len() > 0
            &&& all[0] == before[0]
            &&& header_lines(all) == header_lines(before)
            &&& body_lines(all) == body_lines(before) + text::lines_of(
                vstd::utf8::decode_utf8(more),
            )
        }),
{
    let written = vstd::utf8::decode_utf8(head);
    let before = text::lines_of(written);
    let behind = text::lines_of(vstd::utf8::decode_utf8(more));
    text::lemma_decode_concat(head, more);

    let one = head.drop_last();
    let two = one.drop_last();
    assert(one.push(10) == head);
    text::lemma_decode_push(one, 10);
    if head[head.len() - 2] == 10 {
        assert(two.push(10) == one);
        text::lemma_decode_push(two, 10);
        text::lemma_empty_last_line(vstd::utf8::decode_utf8(two));
    } else {
        let three = two.drop_last();
        assert(two.push(13) == one);
        assert(three.push(10) == two);
        text::lemma_decode_push(two, 13);
        text::lemma_decode_push(three, 10);
        text::lemma_empty_last_line(vstd::utf8::decode_utf8(three));
    }
    text::law_lines_add_up(written, vstd::utf8::decode_utf8(more));

    let rest = before.skip(1);
    let all = before + behind;
    lemma_lines_before_blank(rest);
    assert(rest[rest.len() - 1].len() == 0);
    lemma_blank_stays(rest, behind);
    assert(all.skip(1) == rest + behind);
    let blank = lines_before_blank(rest);
    assert(all.skip(1).take(blank) == rest.take(blank));
    assert(all.skip(1).skip(blank + 1) == rest.skip(blank + 1) + behind);
}

proof fn lemma_blank_stays(lines: Seq<Seq<char>>, more: Seq<Seq<char>>)
    requires
        lines_before_blank(lines) < lines.len(),
    ensures
        lines_before_blank(lines + more) == lines_before_blank(lines),
    decreases lines.len(),
{
    if lines[0].len() > 0 {
        assert((lines + more).skip(1) == lines.skip(1) + more);
        lemma_blank_stays(lines.skip(1), more);
    }
}

/// A line that writes a header name, a colon, a space and a value is read as that name and that
/// value, white space around the value aside.
pub proof fn law_header_line_reads_back(key: Seq<char>, value: Seq<char>)
    requires
        response::is_header_name(key),
    ensures
        key_of(key + seq![':', ' '] + value) == key,
        value_of(key + seq![':', ' '] + value) == text::trimmed(value),
{
    let line = key + seq![':', ' '] + value;
    text::lemma_index_of(line, ':');
    let colon = text::index_of(line, ':');
    assert(line[key.len() as int] == ':');
    if colon < key.len() {
        assert(line[colon] == key[colon]);
        assert(response::token_char(key[colon]));
    }
    assert(line.take(colon) == key);
    assert(line.skip(colon + 1) == seq![' '] + value);
    assert((seq![' '] + value).skip(1) == value);
}

/// Of the lines with one name the last one counts.
pub proof fn law_last_header_counts(lines: Seq<Seq<char>>, i: int)
    requires
        0 <= i < lines.len(),
        forall|j: int|
            i < j < lines.len() ==> response::lower_case(key_of(#[trigger] lines[j]))
                != response::lower_case(key_of(lines[i])),
    ensures
        headers_of(lines).dom().contains(response::lower_case(key_of(lines[i]))),
        headers_of(lines)[response::lower_case(key_of(lines[i]))] == seq![value_bytes(lines[i])],
    decreases lines.len(),
{
    if i < lines.len() - 1 {
        let front = lines.drop_last();
        assert forall|j: int| i < j < front.len() implies response::lower_case(
            key_of(#[trigger] front[j]),
        ) != response::lower_case(key_of(front[i])) by {
            assert(front[j] == lines[j]);
        }
        law_last_header_counts(front, i);
        assert(lines[lines.len() - 1] == lines.last());
    }
}

/// An answer that comes from an output is one that HTTP knows: it has a status code, and every
/// header has a header name in small letters and one header value. Its body ends in a line feed.
pub proof fn law_answers_are_sound(stdout: Seq<u8>)
    requires
        answer_of(stdout) is Ok,
    ensures
        ({
            let answer = answer_of(stdout)->Ok_0;
            &&& response::is_status(answer.status as nat)
            &&& forall|name: Seq<char>| #[trigger]
                answer.headers.dom().contains(name) ==> {
                    &&& response::is_header_name(name)
                    &&& response::lower_case(name) == name
                    &&& answer.headers[name].len() == 1
                    &&& response::is_header_value(answer.headers[name][0])
                }
            &&& answer.body.len() > 0
            &&& answer.body.last() == '\n'
        }),
{
    lemma_headers_are_sound(
        header_lines(text::lines_of(vstd::utf8::decode_utf8(stdout))),
    );
}

proof fn lemma_headers_are_sound(lines: Seq<Seq<char>>)
    requires
        first_fault(lines) is None,
    ensures
        forall|name: Seq<char>| #[trigger]
            headers_of(lines).dom().contains(name) ==> {
                &&& response::is_header_name(name)
                &&& response::lower_case(name) == name
                &&& headers_of(lines)[name].len() == 1
                &&& response::is_header_value(headers_of(lines)[name][0])
            },
    decreases lines.len(),
{
    if lines.len() > 0 {
        let before = headers_of(lines.drop_last());
        let key = key_of(lines.last());
        lemma_headers_are_sound(lines.drop_last());
        response::lemma_lower_case(key);
        assert forall|name: Seq<char>| #[trigger] headers_of(lines).dom().contains(name) implies {
            &&& response::is_header_name(name)
            &&& response::lower_case(name) == name
            &&& headers_of(lines)[name].len() == 1
            &&& response::is_header_value(headers_of(lines)[name][0])
        } by {
            if name != response::lower_case(key) {
                assert(before.dom().contains(name));
            } else {
                assert(headers_of(lines)[name] == seq![value_bytes(lines.last())]);
            }
        }
    }
}

/// The client is never to blame for an output that asks for no answer.
pub proof fn law_client_is_not_to_blame(stdout: Seq<u8>)
    requires
        answer_of(stdout) is Err,
    ensures
        (answer_of(stdout)->Err_0).fault == Fault::InternalServerError,
{
    lemma_first_fault_is_internal(
        header_lines(text::lines_of(vstd::utf8::decode_utf8(stdout))),
    );
}

proof fn lemma_first_fault_is_internal(lines: Seq<Seq<char>>)
    ensures
        first_fault(lines) matches Some(fault) ==> fault.fault == Fault::InternalServerError,
    decreases lines.len(),
{
    if lines.len() > 0 {
        lemma_first_fault_is_internal(lines.drop_last());
    }
}

// ---------------------------------------------------------------------------------------------
// What the lines of an output say

/// A header line holds a name up to its first colon, and behind it the whole value, white space
/// around it aside; what the answer holds of the value is its UTF-8 bytes. Without a colon the whole
/// line is the name, and the value is empty.
pub proof fn law_header_line(key: Seq<char>, rest: Seq<char>)
    requires
        !key.contains(':'),
    ensures
        key_of(key + seq![':'] + rest) == key,
        value_of(key + seq![':'] + rest) == text::trimmed(rest),
        value_bytes(key + seq![':'] + rest) == vstd::utf8::encode_utf8(text::trimmed(rest)),
        key_of(key) == key,
        value_of(key) == Seq::<char>::empty(),
        value_bytes(key) == Seq::<u8>::empty(),
{
    let line = key + seq![':'] + rest;
    text::lemma_index_of(line, ':');
    text::lemma_index_of(key, ':');
    let colon = text::index_of(line, ':');
    assert(line[key.len() as int] == ':');
    if colon < key.len() {
        assert(line[colon] == key[colon]);
    }
    assert(line.take(colon) == key);
    assert(line.skip(colon + 1) == rest);
    assert(key.take(key.len() as int) == key);
}

/// A line that writes a header name, a colon, a space and a value gives that name, in small letters,
/// exactly one value: the UTF-8 bytes of what the line writes, white space around it aside. It takes
/// the place of what lines before it gave the name, and leaves every other name as it was.
pub proof fn law_header_line_gives_one_value(
    before: Seq<Seq<char>>,
    key: Seq<char>,
    value: Seq<char>,
)
    requires
        !key.contains(':'),
    ensures
        ({
            let headers = headers_of(before.push(key + seq![':', ' '] + value));
            let name = response::lower_case(key);
            &&& headers.dom().contains(name)
            &&& headers[name] == seq![vstd::utf8::encode_utf8(text::trimmed(value))]
            &&& forall|other: Seq<char>|
                other != name ==> (headers.dom().contains(other) <==> #[trigger] headers_of(
                    before,
                ).dom().contains(other)) && headers[other] == headers_of(before)[other]
        }),
        headers_of(Seq::empty()) == Map::<Seq<char>, Seq<Seq<u8>>>::empty(),
{
    let line = key + seq![':', ' '] + value;
    assert(line == key + seq![':'] + (seq![' '] + value));
    law_header_line(key, seq![' '] + value);
    assert((seq![' '] + value).skip(1) == value);
    assert(before.push(line).drop_last() == before);
}

/// An output that is not UTF-8 is an internal error, and so is one without any line, one whose first
/// line is not a number of sixteen bits, and one whose number is not a status code.
pub proof fn law_status_line(stdout: Seq<u8>)
    ensures
        !vstd::utf8::valid_utf8(stdout) ==> answer_of(stdout) == Err::<ResponseModel, _>(
            FailureModel {
                fault: Fault::InternalServerError,
                message: "Output of command was not valid UTF-8"@,
                cause: Some(CauseModel::Output),
            },
        ),
        vstd::utf8::valid_utf8(stdout) ==> ({
            let lines = text::lines_of(vstd::utf8::decode_utf8(stdout));
            let number = text::number(lines[0]);
            &&& lines.len() == 0 ==> answer_of(stdout) == Err::<ResponseModel, _>(
                FailureModel {
                    fault: Fault::InternalServerError,
                    message: "Command returned no output"@,
                    cause: None,
                },
            )
            &&& lines.len() > 0 && (number is None || number->0 > 65535) ==> answer_of(stdout)
                == Err::<ResponseModel, _>(
                FailureModel {
                    fault: Fault::InternalServerError,
                    message: "'"@ + lines[0] + "' was not a valid status code"@,
                    cause: Some(CauseModel::Number),
                },
            )
            &&& lines.len() > 0 && (number matches Some(n) && n <= 65535 && !(100 <= n <= 999))
                ==> answer_of(stdout) == Err::<ResponseModel, _>(
                FailureModel {
                    fault: Fault::InternalServerError,
                    message: "'"@ + lines[0] + "' was not a known status code"@,
                    cause: Some(CauseModel::Status),
                },
            )
        }),
{
}

/// Whether a header line gives a header.
spec fn is_sound(line: Seq<char>) -> bool {
    response::is_header_name(key_of(line)) && response::is_header_value(
        vstd::utf8::encode_utf8(value_of(line)),
    )
}

proof fn lemma_all_sound(lines: Seq<Seq<char>>)
    ensures
        first_fault(lines) is None <==> forall|i: int|
            0 <= i < lines.len() ==> is_sound(#[trigger] lines[i]),
    decreases lines.len(),
{
    if lines.len() > 0 {
        let front = lines.drop_last();
        lemma_all_sound(front);
        assert(lines.last() == lines[lines.len() - 1]);
        if first_fault(lines) is None {
            assert forall|i: int| 0 <= i < lines.len() implies is_sound(#[trigger] lines[i]) by {
                if i < front.len() {
                    assert(front[i] == lines[i]);
                }
            }
        }
        if forall|i: int| 0 <= i < lines.len() ==> is_sound(#[trigger] lines[i]) {
            assert forall|i: int| 0 <= i < front.len() implies is_sound(#[trigger] front[i]) by {
                assert(front[i] == lines[i]);
            }
        }
    }
}

/// The lines before the first empty one are counted right.
proof fn lemma_blank_at(lines: Seq<Seq<char>>, n: int)
    requires
        0 <= n <= lines.len(),
        forall|i: int| 0 <= i < n ==> (#[trigger] lines[i]).len() > 0,
        n < lines.len() ==> lines[n].len() == 0,
    ensures
        lines_before_blank(lines) == n,
{
    lemma_lines_before_blank(lines);
    let found = lines_before_blank(lines);
    if found < n {
        assert(lines[found].len() > 0);
    }
    if n < found {
        assert(lines[n].len() > 0);
    }
}

/// The names of the headers are those of the lines.
proof fn lemma_names(lines: Seq<Seq<char>>, name: Seq<char>)
    ensures
        headers_of(lines).dom().contains(name) <==> exists|i: int|
            0 <= i < lines.len() && response::lower_case(key_of(#[trigger] lines[i])) == name,
    decreases lines.len(),
{
    if lines.len() > 0 {
        let front = lines.drop_last();
        lemma_names(front, name);
        assert(lines.last() == lines[lines.len() - 1]);
        if exists|i: int|
            0 <= i < front.len() && response::lower_case(key_of(#[trigger] front[i])) == name {
            let i = choose|i: int|
                0 <= i < front.len() && response::lower_case(key_of(#[trigger] front[i])) == name;
            assert(front[i] == lines[i]);
        }
        if exists|i: int|
            0 <= i < lines.len() && response::lower_case(key_of(#[trigger] lines[i])) == name {
            let i = choose|i: int|
                0 <= i < lines.len() && response::lower_case(key_of(#[trigger] lines[i])) == name;
            if i < front.len() {
                assert(front[i] == lines[i]);
            }
        }
    }
}

/// An output whose first line is a status code, behind which `n` lines write headers, up to an empty
/// line or to the end, is answered: with that status code; with a header for every one of the `n`
/// lines and no other, whose value is the one that the last line with its name writes; and with the
/// lines behind the empty one for a body, as they are.
pub proof fn law_good_output(stdout: Seq<u8>, n: int)
    requires
        vstd::utf8::valid_utf8(stdout),
        ({
            let lines = text::lines_of(vstd::utf8::decode_utf8(stdout));
            &&& 0 <= n < lines.len()
            &&& text::number(lines[0]) is Some
            &&& 100 <= text::number(lines[0])->0 <= 999
            &&& forall|i: int|
                1 <= i <= n ==> (#[trigger] lines[i]).len() > 0 && response::is_header_name(
                    key_of(lines[i]),
                ) && response::is_header_value(vstd::utf8::encode_utf8(value_of(lines[i])))
            &&& n + 1 < lines.len() ==> lines[n + 1].len() == 0
        }),
    ensures
        ({
            let lines = text::lines_of(vstd::utf8::decode_utf8(stdout));
            let answer = answer_of(stdout)->Ok_0;
            &&& answer_of(stdout) is Ok
            &&& text::number(lines[0]) == Some(answer.status as nat)
            &&& forall|name: Seq<char>| #[trigger]
                answer.headers.dom().contains(name) <==> exists|i: int|
                    1 <= i <= n && response::lower_case(key_of(#[trigger] lines[i])) == name
            &&& forall|i: int|
                1 <= i <= n && (forall|j: int|
                    i < j <= n ==> response::lower_case(key_of(#[trigger] lines[j]))
                        != response::lower_case(key_of(lines[i]))) ==> answer.headers[
                response::lower_case(key_of(#[trigger] lines[i]))] == seq![
                    vstd::utf8::encode_utf8(value_of(lines[i])),
                ]
            &&& answer.body == if n + 2 < lines.len() {
                text::joined(lines.skip(n + 2), '\n').push('\n')
            } else {
                seq!['\n']
            }
        }),
{
    let lines = text::lines_of(vstd::utf8::decode_utf8(stdout));
    let rest = lines.skip(1);
    assert forall|i: int| 0 <= i < n implies (#[trigger] rest[i]).len() > 0 by {
        assert(rest[i] == lines[i + 1]);
    }
    lemma_blank_at(rest, n);
    let block = header_lines(lines);
    assert(block == rest.take(n));
    assert forall|i: int| 0 <= i < block.len() implies is_sound(#[trigger] block[i]) by {
        assert(block[i] == lines[i + 1]);
    }
    lemma_all_sound(block);
    let answer = answer_of(stdout)->Ok_0;
    assert(answer.headers == headers_of(block));
    assert forall|name: Seq<char>| #[trigger]
        answer.headers.dom().contains(name) <==> exists|i: int|
            1 <= i <= n && response::lower_case(key_of(#[trigger] lines[i])) == name by {
        lemma_names(block, name);
        if exists|i: int|
            0 <= i < block.len() && response::lower_case(key_of(#[trigger] block[i])) == name {
            let i = choose|i: int|
                0 <= i < block.len() && response::lower_case(key_of(#[trigger] block[i])) == name;
            assert(block[i] == lines[i + 1]);
        }
        if exists|i: int|
            1 <= i <= n && response::lower_case(key_of(#[trigger] lines[i])) == name {
            let i = choose|i: int|
                1 <= i <= n && response::lower_case(key_of(#[trigger] lines[i])) == name;
            assert(block[i - 1] == lines[i]);
        }
    }
    assert forall|i: int|
        1 <= i <= n && (forall|j: int|
            i < j <= n ==> response::lower_case(key_of(#[trigger] lines[j]))
                != response::lower_case(key_of(lines[i]))) implies answer.headers[
        response::lower_case(key_of(#[trigger] lines[i]))] == seq![
        vstd::utf8::encode_utf8(value_of(lines[i])),
    ] by {
        assert(block[i - 1] == lines[i]);
        assert forall|j: int| i - 1 < j < block.len() implies response::lower_case(
            key_of(#[trigger] block[j]),
        ) != response::lower_case(key_of(block[i - 1])) by {
            assert(block[j] == lines[j + 1]);
        }
        law_last_header_counts(block, i - 1);
    }
    let body = body_lines(lines);
    if n + 2 < lines.len() {
        assert(body == lines.skip(n + 2));
    } else {
        assert(body.len() == 0);
        assert(text::joined(body, '\n').push('\n') == seq!['\n']);
    }
}

/// An output whose first line is a status code, but whose header lines are wrong from line `n` on, is
/// an internal error that names the name in that line, or its name and its value where the name is
/// right. Nothing behind that line matters.
pub proof fn law_bad_header(stdout: Seq<u8>, n: int)
    requires
        vstd::utf8::valid_utf8(stdout),
        ({
            let lines = text::lines_of(vstd::utf8::decode_utf8(stdout));
            &&& 1 <= n < lines.len()
            &&& text::number(lines[0]) is Some
            &&& 100 <= text::number(lines[0])->0 <= 999
            &&& lines[n].len() > 0
            &&& forall|i: int|
                1 <= i < n ==> (#[trigger] lines[i]).len() > 0 && response::is_header_name(
                    key_of(lines[i]),
                ) && response::is_header_value(vstd::utf8::encode_utf8(value_of(lines[i])))
        }),
    ensures
        ({
            let line = text::lines_of(vstd::utf8::decode_utf8(stdout))[n];
            &&& !response::is_header_name(key_of(line)) ==> answer_of(stdout) == Err::<
                ResponseModel,
                _,
            >(
                FailureModel {
                    fault: Fault::InternalServerError,
                    message: "Invalid header name '"@ + key_of(line) + "'"@,
                    cause: Some(CauseModel::HeaderName),
                },
            )
            &&& response::is_header_name(key_of(line)) && !response::is_header_value(
                vstd::utf8::encode_utf8(value_of(line)),
            ) ==> answer_of(stdout) == Err::<ResponseModel, _>(
                FailureModel {
                    fault: Fault::InternalServerError,
                    message: "Invalid header value '"@ + key_of(line) + "': '"@ + value_of(line)
                        + "'"@,
                    cause: Some(CauseModel::HeaderValue),
                },
            )
        }),
{
    let lines = text::lines_of(vstd::utf8::decode_utf8(stdout));
    let rest = lines.skip(1);
    lemma_lines_before_blank(rest);
    let blank = lines_before_blank(rest);
    if blank < n {
        assert(rest[blank] == lines[blank + 1]);
    }
    let block = header_lines(lines);
    let front = block.take(n - 1);
    assert forall|i: int| 0 <= i < front.len() implies is_sound(#[trigger] front[i]) by {
        assert(front[i] == lines[i + 1]);
    }
    lemma_all_sound(front);
    let upto = block.take(n);
    assert(upto.drop_last() == front);
    assert(upto.last() == lines[n]);
    if first_fault(upto) is Some {
        lemma_first_fault(block, n);
    }
}

/// What an output comes to is what it asks for, wherever there is sure to be room for its headers, and
/// want of room where there is sure to be none. As many headers as it asks for differ by at most one
/// from those that the map holds when the last of them is put into it.
pub proof fn law_results(stdout: Seq<u8>, result: Result<ResponseModel, OutputErrorModel>)
    requires
        comes_to(stdout, result),
    ensures
        result matches Ok(answer) ==> answer_of(stdout) == Ok::<_, FailureModel>(answer),
        result matches Err(OutputErrorModel::Failed(fault)) ==> answer_of(stdout) == Err::<
            ResponseModel,
            _,
        >(fault),
        headers_held(stdout) <= 6553 ==> !(result matches Err(OutputErrorModel::TooManyHeaders)),
        headers_held(stdout) >= 24576 ==> (result matches Err(OutputErrorModel::TooManyHeaders)),
        answer_of(stdout) matches Ok(answer) ==> headers_held(stdout) <= answer.headers.dom().len()
            <= headers_held(stdout) + 1,
{
    if answer_of(stdout) is Ok {
        let block = header_lines(text::lines_of(vstd::utf8::decode_utf8(stdout)));
        if block.len() > 0 {
            lemma_headers_grow(block, block.len() - 1);
            assert(block.take(block.len() - 1) == block.drop_last());
            lemma_headers_grow(block.drop_last(), 0);
        }
    }
}

/// The view of what an output has come to holds the answer, or why there is none.
pub proof fn law_view(r: Result<Response, OutputError>)
    ensures
        r matches Ok(answer) ==> result_model(r) == Ok::<_, OutputErrorModel>(answer@),
        r matches Err(OutputError::Failed(fault)) ==> result_model(r) == Err::<ResponseModel, _>(
            OutputErrorModel::Failed(fault@),
        ),
        r matches Err(OutputError::TooManyHeaders(_)) ==> result_model(r) == Err::<
            ResponseModel,
            _,
        >(OutputErrorModel::TooManyHeaders),
{
}

/// What a command wrote to its error stream is shown whole, white space around it aside, and white
/// space alone is not shown.
pub proof fn law_error_stream(before: Seq<char>, message: Seq<char>, after: Seq<char>)
    requires
        forall|i: int| 0 <= i < before.len() ==> text::white_space(#[trigger] before[i]),
        forall|i: int| 0 <= i < after.len() ==> text::white_space(#[trigger] after[i]),
        message.len() > 0 ==> !text::white_space(message[0]) && !text::white_space(message.last()),
    ensures
        shown(vstd::utf8::encode_utf8(before + message + after)) == if message.len() > 0 {
            Some(message)
        } else {
            None
        },
{
    let written = before + message + after;
    vstd::utf8::encode_utf8_decode_utf8(written);
    text::law_trim_keeps_the_text(before, message, after);
}

} // verus!
