//! Positional placeholder substitution for plain-text fragments.
//!
//! A fragment may refer to the arguments of a render call as `{0}` to `{9}`;
//! `{{` and `}}` stand for a literal brace. [`expansion`] is the meaning of a
//! fragment, [`substitute_placeholders`] computes it.

use vstd::prelude::*;
use vstd::string::StringExecFns;
use vstd::string::StrSliceExecFns;
use crate::text::chars_of;
use crate::text::decimal_digits;
use crate::text::decimal_text;
use crate::text::text_between;

verus! {

/// Why a fragment could not be expanded.
#[derive(Debug, Clone, PartialEq, Eq)]
pub enum PlaceholderError {
    /// `{` is followed by neither `{` nor a digit.
    EmptyBraces,
    /// The digits are not followed by `}`.
    Unterminated { digits: String },
    /// `{` is the last character of the fragment.
    UnterminatedAtEnd,
    /// The placeholder names an index above nine.
    IndexAboveNine,
    /// The render call supplied no argument for this index.
    MissingArgument { index: usize },
    /// `}` is not followed by a second `}`.
    UnmatchedClosingBrace,
}

/// The mathematical value of a [`PlaceholderError`].
pub enum PlaceholderFault {
    EmptyBraces,
    Unterminated { digits: Seq<char> },
    UnterminatedAtEnd,
    IndexAboveNine,
    MissingArgument { index: nat },
    UnmatchedClosingBrace,
}

impl View for PlaceholderError {
    type V = PlaceholderFault;

    open spec fn view(&self) -> PlaceholderFault {
        match self {
            PlaceholderError::EmptyBraces => PlaceholderFault::EmptyBraces,
            PlaceholderError::Unterminated { digits } => PlaceholderFault::Unterminated {
                digits: digits@,
            },
            PlaceholderError::UnterminatedAtEnd => PlaceholderFault::UnterminatedAtEnd,
            PlaceholderError::IndexAboveNine => PlaceholderFault::IndexAboveNine,
            PlaceholderError::MissingArgument { index } => PlaceholderFault::MissingArgument {
                index: *index as nat,
            },
            PlaceholderError::UnmatchedClosingBrace => PlaceholderFault::UnmatchedClosingBrace,
        }
    }
}

impl PlaceholderFault {
    /// The sentence that reports this fault.
    pub open spec fn message(self) -> Seq<char> {
        match self {
            PlaceholderFault::EmptyBraces => "empty placeholder braces are not allowed"@,
            PlaceholderFault::Unterminated { digits } => "unterminated placeholder '{"@ + digits
                + "'"@,
            PlaceholderFault::UnterminatedAtEnd => "unterminated placeholder at end of template"@,
            PlaceholderFault::IndexAboveNine => "positional placeholders support up to 9 arguments"@,
            PlaceholderFault::MissingArgument { index } => "missing argument for placeholder {"@
                + decimal_digits(index) + "}"@,
            PlaceholderFault::UnmatchedClosingBrace => "unmatched closing brace '}'"@,
        }
    }
}

impl PlaceholderError {
    /// The sentence that reports this error.
    pub fn message(&self) -> (text: String)
        ensures
            text@ == self@.message(),
    {
        match self {
            PlaceholderError::EmptyBraces => String::from_str(
                "empty placeholder braces are not allowed",
            ),
            PlaceholderError::Unterminated { digits } => {
                let mut text = String::from_str("unterminated placeholder '{");
                text.append(digits.as_str());
                text.append("'");
                text
            },
            PlaceholderError::UnterminatedAtEnd => String::from_str(
                "unterminated placeholder at end of template",
            ),
            PlaceholderError::IndexAboveNine => String::from_str(
                "positional placeholders support up to 9 arguments",
            ),
            PlaceholderError::MissingArgument { index } => {
                let mut text = String::from_str("missing argument for placeholder {");
                let number = decimal_text(*index as u64);
                text.append(number.as_str());
                text.append("}");
                text
            },
            PlaceholderError::UnmatchedClosingBrace => String::from_str(
                "unmatched closing brace '}'",
            ),
        }
    }
}

/// Whether `c` is one of `0` to `9`.
pub open spec fn is_digit(c: char) -> bool {
    '0' <= c && c <= '9'
}

/// How many digits stand at the front of `text`.
pub open spec fn digit_run(text: Seq<char>) -> nat
    decreases text.len(),
{
    if text.len() > 0 && is_digit(text[0]) {
        1 + digit_run(text.skip(1))
    } else {
        0
    }
}

/// The number that a run of digits writes in base ten.
pub open spec fn decimal_value(digits: Seq<char>) -> nat
    decreases digits.len(),
{
    if digits.len() == 0 {
        0
    } else {
        decimal_value(digits.drop_last()) * 10 + (digits.last() as nat - '0' as nat) as nat
    }
}

/// `prefix` followed by the text of `rest`, or the fault of `rest`.
pub open spec fn continue_with(
    prefix: Seq<char>,
    rest: Result<Seq<char>, PlaceholderFault>,
) -> Result<Seq<char>, PlaceholderFault> {
    match rest {
        Ok(tail) => Ok(prefix + tail),
        Err(fault) => Err(fault),
    }
}

/// The text that `template` stands for when its placeholders refer to `args`,
/// or the first fault met when reading it from left to right.
///
/// Of a placeholder the checks come in this order: there are digits, `}`
/// follows them, they write a number of at most nine, and there is an
/// argument of that number.
pub open spec fn expansion(template: Seq<char>, args: Seq<Seq<char>>) -> Result<
    Seq<char>,
    PlaceholderFault,
>
    decreases template.len(),
{
    if template.len() == 0 {
        Ok(Seq::empty())
    } else if template[0] == '{' {
        if template.len() == 1 {
            Err(PlaceholderFault::UnterminatedAtEnd)
        } else if template[1] == '{' {
            continue_with(seq!['{'], expansion(template.skip(2), args))
        } else {
            let count = digit_run(template.skip(1)) as int;
            let digits = template.subrange(1, 1 + count);
            let index = decimal_value(digits);
            if count == 0 {
                Err(PlaceholderFault::EmptyBraces)
            } else if 1 + count >= template.len() || template[1 + count] != '}' {
                Err(PlaceholderFault::Unterminated { digits })
            } else if index > 9 {
                Err(PlaceholderFault::IndexAboveNine)
            } else if index >= args.len() {
                Err(PlaceholderFault::MissingArgument { index })
            } else {
                continue_with(args[index as int], expansion(template.skip(count + 2), args))
            }
        }
    } else if template[0] == '}' {
        if template.len() >= 2 && template[1] == '}' {
            continue_with(seq!['}'], expansion(template.skip(2), args))
        } else {
            Err(PlaceholderFault::UnmatchedClosingBrace)
        }
    } else {
        continue_with(seq![template[0]], expansion(template.skip(1), args))
    }
}

/// The mathematical value of what [`substitute_placeholders`] returns.
pub open spec fn outcome_view(outcome: Result<String, PlaceholderError>) -> Result<
    Seq<char>,
    PlaceholderFault,
> {
    match outcome {
        Ok(text) => Ok(text@),
        Err(error) => Err(error@),
    }
}

proof fn lemma_digit_run(text: Seq<char>, count: int)
    requires
        0 <= count <= text.len(),
        forall|k: int| 0 <= k < count ==> is_digit(#[trigger] text[k]),
        count == text.len() || !is_digit(text[count]),
    ensures
        digit_run(text) == count,
    decreases count,
{
    if count > 0 {
        let rest = text.skip(1);
        assert forall|k: int| 0 <= k < count - 1 implies is_digit(#[trigger] rest[k]) by {
            assert(rest[k] == text[k + 1]);
        }
        lemma_digit_run(rest, count - 1);
    }
}

proof fn lemma_continue_twice(
    first: Seq<char>,
    second: Seq<char>,
    rest: Result<Seq<char>, PlaceholderFault>,
)
    ensures
        continue_with(first, continue_with(second, rest)) == continue_with(first + second, rest),
{
    match rest {
        Ok(tail) => {
            assert(first + (second + tail) =~= (first + second) + tail);
        },
        Err(_) => {},
    }
}

/// Expands the placeholders of `template` against `args`.
///
/// The scan runs once from left to right and stops at the first fault.
pub fn substitute_placeholders(template: &str, args: &[String]) -> (outcome: Result<
    String,
    PlaceholderError,
>)
    ensures
        outcome_view(outcome) == expansion(template@, args.deep_view()),
{
    let chars = chars_of(template);
    let len = chars.len();
    let mut output = String::new();
    let mut pos: usize = 0;
    let ghost full = template@;
    let ghost values = args.deep_view();
    proof {
        assert(full.skip(0) =~= full);
        assert(Seq::<char>::empty() + Seq::<char>::empty() =~= Seq::<char>::empty());
    }
    while pos < len
        invariant
            pos <= len,
            len == chars@.len(),
            chars@ == full,
            full == template@,
            values == args.deep_view(),
            expansion(full, values) == continue_with(output@, expansion(full.skip(pos as int), values)),
        decreases len - pos,
    {
        let ghost rest = full.skip(pos as int);
        let ghost before = output@;
        let ch = chars[pos];
        assert(rest.len() == len - pos && rest[0] == ch);
        if ch == '{' {
            if pos + 1 == len {
                return Err(PlaceholderError::UnterminatedAtEnd);
            }
            assert(rest[1] == chars@[pos + 1]);
            if chars[pos + 1] == '{' {
                output.push('{');
                proof {
                    assert(rest.skip(2) =~= full.skip(pos + 2));
                    lemma_continue_twice(before, seq!['{'], expansion(rest.skip(2), values));
                    assert(before + seq!['{'] =~= before.push('{'));
                }
                pos += 2;
            } else {
                let start = pos + 1;
                let mut end = start;
                let mut index: usize = 0;
                let mut above_nine = false;
                assert(full.subrange(start as int, end as int) =~= Seq::<char>::empty());
                while end < len && chars[end] >= '0' && chars[end] <= '9'
                    invariant
                        start <= end <= len,
                        len == chars@.len(),
                        chars@ == full,
                        forall|k: int| start <= k < end ==> is_digit(#[trigger] full[k]),
                        above_nine ==> decimal_value(full.subrange(start as int, end as int)) > 9,
                        !above_nine ==> decimal_value(full.subrange(start as int, end as int))
                            == index && index <= 9,
                    decreases len - end,
                {
                    let digit = (chars[end] as u32 - '0' as u32) as usize;
                    proof {
                        let longer = full.subrange(start as int, end + 1);
                        assert(longer.drop_last() =~= full.subrange(start as int, end as int));
                        assert(longer.last() == full[end as int]);
                    }
                    if above_nine || index * 10 + digit > 9 {
                        above_nine = true;
                    } else {
                        index = index * 10 + digit;
                    }
                    end += 1;
                }
                let ghost count = end - start;
                let ghost digits = full.subrange(start as int, end as int);
                proof {
                    let tail = rest.skip(1);
                    assert forall|k: int| 0 <= k < count implies is_digit(#[trigger] tail[k]) by {
                        assert(tail[k] == full[start + k]);
                    }
                    if count < tail.len() {
                        assert(tail[count] == full[end as int]);
                    }
                    lemma_digit_run(tail, count);
                    assert(rest.subrange(1, 1 + count) =~= digits);
                }
                if end == start {
                    return Err(PlaceholderError::EmptyBraces);
                }
                if end == len || chars[end] != '}' {
                    assert(end < len ==> rest[1 + count] == full[end as int]);
                    return Err(
                        PlaceholderError::Unterminated { digits: text_between(&chars, start, end) },
                    );
                }
                assert(rest[1 + count] == full[end as int]);
                if above_nine {
                    return Err(PlaceholderError::IndexAboveNine);
                }
                if index >= args.len() {
                    return Err(PlaceholderError::MissingArgument { index });
                }
                output.append(args[index].as_str());
                proof {
                    assert(values[index as int] == args@[index as int]@);
                    assert(rest.skip(count + 2) =~= full.skip(end + 1));
                    lemma_continue_twice(
                        before,
                        values[index as int],
                        expansion(rest.skip(count + 2), values),
                    );
                }
                pos = end + 1;
            }
        } else if ch == '}' {
            if pos + 1 < len && chars[pos + 1] == '}' {
                output.push('}');
                proof {
                    assert(rest[1] == chars@[pos + 1]);
                    assert(rest.skip(2) =~= full.skip(pos + 2));
                    lemma_continue_twice(before, seq!['}'], expansion(rest.skip(2), values));
                    assert(before + seq!['}'] =~= before.push('}'));
                }
                pos += 2;
            } else {
                assert(pos + 1 < len ==> rest[1] == chars@[pos + 1]);
                return Err(PlaceholderError::UnmatchedClosingBrace);
            }
        } else {
            output.push(ch);
            proof {
                assert(rest.skip(1) =~= full.skip(pos + 1));
                lemma_continue_twice(before, seq![ch], expansion(rest.skip(1), values));
                assert(before + seq![ch] =~= before.push(ch));
            }
            pos += 1;
        }
    }
    proof {
        assert(output@ + Seq::<char>::empty() =~= output@);
    }
    Ok(output)
}

/// `text` without the line breaks at its end.
pub open spec fn without_trailing_breaks(text: Seq<char>) -> Seq<char>
    decreases text.len(),
{
    if text.len() > 0 && text.last() == '\n' {
        without_trailing_breaks(text.drop_last())
    } else {
        text
    }
}

/// `text` made to end with exactly one line break.
pub open spec fn line_terminated(text: Seq<char>) -> Seq<char> {
    without_trailing_breaks(text).push('\n')
}

/// What one fragment contributes to a rendered prompt: its expansion, ending
/// with exactly one line break.
pub open spec fn fragment_rendering(content: Seq<char>, args: Seq<Seq<char>>) -> Result<
    Seq<char>,
    PlaceholderFault,
> {
    match expansion(content, args) {
        Ok(text) => Ok(line_terminated(text)),
        Err(fault) => Err(fault),
    }
}

/// The rendered fragments of a prompt, one after the other; the fault of the
/// first fragment that has one.
pub open spec fn sequence_rendering(contents: Seq<Seq<char>>, args: Seq<Seq<char>>) -> Result<
    Seq<char>,
    PlaceholderFault,
>
    decreases contents.len(),
{
    if contents.len() == 0 {
        Ok(Seq::empty())
    } else {
        match sequence_rendering(contents.drop_last(), args) {
            Ok(head) => continue_with(head, fragment_rendering(contents.last(), args)),
            Err(fault) => Err(fault),
        }
    }
}

/// Expands one fragment and appends it to `rendered`, ending with exactly one
/// line break. On a fault `rendered` keeps its text.
pub fn append_fragment(rendered: &mut String, content: &str, args: &[String]) -> (outcome: Result<
    (),
    PlaceholderError,
>)
    ensures
        match fragment_rendering(content@, args.deep_view()) {
            Ok(text) => outcome is Ok && final(rendered)@ == old(rendered)@ + text,
            Err(fault) => outcome is Err && outcome->Err_0@ == fault && final(rendered)@ == old(
                rendered,
            )@,
        },
{
    let expanded = match substitute_placeholders(content, args) {
        Ok(text) => text,
        Err(error) => {
            return Err(error);
        },
    };
    let chars = chars_of(expanded.as_str());
    let mut end = chars.len();
    assert(chars@.take(end as int) =~= chars@);
    while end > 0 && chars[end - 1] == '\n'
        invariant
            end <= chars@.len(),
            without_trailing_breaks(chars@) == without_trailing_breaks(chars@.take(end as int)),
        decreases end,
    {
        proof {
            assert(chars@.take(end as int).drop_last() =~= chars@.take(end - 1));
        }
        end -= 1;
    }
    let kept = text_between(&chars, 0, end);
    rendered.append(kept.as_str());
    rendered.push('\n');
    proof {
        assert(chars@.take(end as int) =~= chars@.subrange(0, end as int));
        assert(old(rendered)@ + line_terminated(chars@) =~= (old(rendered)@ + kept@).push('\n'));
    }
    Ok(())
}

/// Renders the fragments of a sequence prompt, whose file contents are
/// `contents`, in order.
pub fn render_sequence(contents: &[String], args: &[String]) -> (outcome: Result<
    String,
    PlaceholderError,
>)
    ensures
        outcome_view(outcome) == sequence_rendering(contents.deep_view(), args.deep_view()),
{
    let mut rendered = String::new();
    let mut i: usize = 0;
    let ghost texts = contents.deep_view();
    let ghost values = args.deep_view();
    while i < contents.len()
        invariant
            i <= contents@.len(),
            texts == contents.deep_view(),
            values == args.deep_view(),
            sequence_rendering(texts.take(i as int), values) == Ok::<
                Seq<char>,
                PlaceholderFault,
            >(rendered@),
        decreases contents@.len() - i,
    {
        proof {
            assert(texts.take(i + 1).drop_last() =~= texts.take(i as int));
            assert(texts.take(i + 1).last() == contents@[i as int]@);
        }
        match append_fragment(&mut rendered, contents[i].as_str(), args) {
            Ok(()) => {},
            Err(error) => {
                proof {
                    lemma_fault_stops_sequence(texts, values, i + 1);
                }
                return Err(error);
            },
        }
        i += 1;
    }
    proof {
        assert(texts.take(i as int) =~= texts);
    }
    Ok(rendered)
}

proof fn lemma_fault_stops_sequence(contents: Seq<Seq<char>>, args: Seq<Seq<char>>, upto: int)
    requires
        0 <= upto <= contents.len(),
        sequence_rendering(contents.take(upto), args) is Err,
    ensures
        sequence_rendering(contents, args) == sequence_rendering(contents.take(upto), args),
    decreases contents.len() - upto,
{
    if upto < contents.len() {
        assert(contents.take(upto + 1).drop_last() =~= contents.take(upto));
        lemma_fault_stops_sequence(contents, args, upto + 1);
    } else {
        assert(contents.take(upto) =~= contents);
    }
}

/// A placeholder whose digits write a number above nine gets the one error
/// for such an index, however many digits there are and however many
/// arguments: where the text starts with `{`, a run of digits of a value
/// above nine, and `}`, that error is the outcome.
pub proof fn lemma_index_above_nine_is_refused(template: Seq<char>, args: Seq<Seq<char>>)
    requires
        template.len() >= 2,
        template[0] == '{',
        digit_run(template.skip(1)) >= 1,
        1 + digit_run(template.skip(1)) < template.len(),
        template[1 + digit_run(template.skip(1)) as int] == '}',
        decimal_value(template.subrange(1, 1 + digit_run(template.skip(1)) as int)) > 9,
    ensures
        expansion(template, args) == Err::<Seq<char>, PlaceholderFault>(
            PlaceholderFault::IndexAboveNine,
        ),
{
    assert(template.skip(1)[0] == template[1]);
}

/// Whether `c` is `{` or `}`.
pub open spec fn is_brace(c: char) -> bool {
    c == '{' || c == '}'
}

/// `text` with every brace doubled: the fragment that stands for `text`.
pub open spec fn escaped(text: Seq<char>) -> Seq<char>
    decreases text.len(),
{
    if text.len() == 0 {
        Seq::empty()
    } else if is_brace(text[0]) {
        seq![text[0], text[0]] + escaped(text.skip(1))
    } else {
        seq![text[0]] + escaped(text.skip(1))
    }
}

/// A text without braces expands to itself, whatever the arguments are; so
/// expanding it a second time changes nothing.
pub proof fn lemma_text_without_braces_is_unchanged(text: Seq<char>, args: Seq<Seq<char>>)
    requires
        forall|i: int| 0 <= i < text.len() ==> !is_brace(#[trigger] text[i]),
    ensures
        expansion(text, args) == Ok::<Seq<char>, PlaceholderFault>(text),
    decreases text.len(),
{
    if text.len() > 0 {
        let rest = text.skip(1);
        assert(!is_brace(text[0]));
        assert forall|i: int| 0 <= i < rest.len() implies !is_brace(#[trigger] rest[i]) by {
            assert(rest[i] == text[i + 1]);
        }
        lemma_text_without_braces_is_unchanged(rest, args);
        assert(seq![text[0]] + rest =~= text);
    } else {
        assert(text =~= Seq::<char>::empty());
    }
}

/// Doubled braces come out as single braces and nothing else is expanded:
/// the escaped form of any text expands to that text.
pub proof fn lemma_escaped_text_expands_to_text(text: Seq<char>, args: Seq<Seq<char>>)
    ensures
        expansion(escaped(text), args) == Ok::<Seq<char>, PlaceholderFault>(text),
    decreases text.len(),
{
    if text.len() > 0 {
        let rest = text.skip(1);
        let whole = escaped(text);
        lemma_escaped_text_expands_to_text(rest, args);
        if is_brace(text[0]) {
            assert(whole[0] == text[0] && whole[1] == text[0]);
            assert(whole.skip(2) =~= escaped(rest));
        } else {
            assert(whole[0] == text[0]);
            assert(whole.skip(1) =~= escaped(rest));
        }
        assert(seq![text[0]] + rest =~= text);
    } else {
        assert(text =~= Seq::<char>::empty());
    }
}

} // verus!
