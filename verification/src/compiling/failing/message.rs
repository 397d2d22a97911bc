//! Messages: diagnostics with a kind, a trace of spans, and the text that
//! goes with them.

use vstd::prelude::*;
use crate::compiling::failing::logger::{
    Logger,
    RowTexts,
    kind_label,
    opt_line,
    opt_padded_line,
    opt_rows_fit,
    opt_snippet,
    opt_snippet_frame,
    path_lines,
    source_of,
};
use crate::compiling::failing::position_info::{
    PositionInfo,
    PositionInfoView,
    position_views,
    text_of,
    token_span,
};
use crate::compiling::parser::metadata::Metadata;
use crate::compiling::token::Token;
use crate::text::{clone_text, string_of_str};

verus! {

/// How grave a message is.
#[derive(Clone, Copy, Debug, PartialEq, Eq)]
pub enum MessageType {
    /// Something is wrong.
    Error,
    /// Something looks wrong.
    Warning,
    /// Something is worth knowing.
    Info,
}

/// A diagnostic. The first span of the trace is the place that the
/// message is about; each further one encloses the one before it.
#[derive(Debug, PartialEq, Eq)]
pub struct Message {
    /// How grave the message is.
    pub kind: MessageType,
    /// The spans concerned, innermost first.
    pub trace: Vec<PositionInfo>,
    /// The source code, if it is at hand.
    pub code: Option<String>,
    /// What the message says.
    pub message: Option<String>,
    /// A remark that follows the message.
    pub comment: Option<String>,
}

/// A message as a mathematical value.
pub struct MessageView {
    pub kind: MessageType,
    pub trace: Seq<PositionInfoView>,
    pub code: Option<Seq<char>>,
    pub message: Option<Seq<char>>,
    pub comment: Option<Seq<char>>,
}

impl View for Message {
    type V = MessageView;

    open spec fn view(&self) -> MessageView {
        MessageView {
            kind: self.kind,
            trace: position_views(self.trace@),
            code: text_of(self.code),
            message: text_of(self.message),
            comment: text_of(self.comment),
        }
    }
}

/// A copy of a list of spans.
pub fn clone_trace(trace: &[PositionInfo]) -> (out: Vec<PositionInfo>)
    ensures
        position_views(out@) == position_views(trace@),
{
    let mut out: Vec<PositionInfo> = Vec::new();
    let mut i: usize = 0;
    while i < trace.len()
        invariant
            i <= trace@.len(),
            position_views(out@) == position_views(trace@).take(i as int),
        decreases trace@.len() - i,
    {
        let ghost before = position_views(out@);
        let copy = trace[i].clone();
        out.push(copy);
        proof {
            assert(position_views(out@) =~= before.push(copy@));
            assert(position_views(trace@).take(i + 1) =~= position_views(trace@).take(i as int).push(
                trace@[i as int]@,
            ));
        }
        i += 1;
    }
    proof {
        assert(position_views(trace@).take(trace@.len() as int) =~= position_views(trace@));
    }
    out
}

impl Clone for Message {
    fn clone(&self) -> (out: Message)
        ensures
            out@ == self@,
    {
        Message {
            kind: self.kind,
            trace: clone_trace(self.trace.as_slice()),
            code: clone_text(&self.code),
            message: clone_text(&self.message),
            comment: clone_text(&self.comment),
        }
    }
}

/// The message of kind `kind` about the span `position`, seen from within
/// the contexts `outer`: the span comes first in its trace, the contexts
/// follow from the innermost to the outermost.
pub open spec fn message_at(
    kind: MessageType,
    code: Option<Seq<char>>,
    outer: Seq<PositionInfoView>,
    position: PositionInfoView,
) -> MessageView {
    MessageView { kind, trace: outer.push(position).reverse(), code, message: None, comment: None }
}

/// The parts of a message as they are shown: the label of its kind, what
/// it says, the lines that say where it belongs, its remark, and the rows
/// of its snippet. What a message does not have is not there.
pub struct Painted {
    pub head: Seq<char>,
    pub said: Option<Seq<char>>,
    pub place: Seq<char>,
    pub remark: Option<Seq<char>>,
    pub rows: RowTexts,
}

/// The parts `parts` are those that the message `m` has, with a snippet
/// taken from `code`: it says something if `m` does, it has a remark if
/// `m` has, and the rows of its snippet are those that the code has.
pub open spec fn parts_fit(m: MessageView, code: Option<Seq<char>>, parts: Painted) -> bool {
    &&& parts.said is Some <==> m.message is Some
    &&& parts.remark is Some <==> m.comment is Some
    &&& opt_rows_fit(m.trace, code, parts.rows)
}

/// The layout of a message: the label of its kind and a space, what it
/// says on the same line, the lines that say where it belongs, its remark
/// after an empty line, and a snippet of the code. A message without a
/// trace has neither place nor snippet.
pub open spec fn message_frame(m: MessageView, code: Option<Seq<char>>, parts: Painted) -> Seq<
    char,
> {
    if m.trace.len() > 0 {
        parts.head.push(' ') + opt_line(parts.said) + parts.place.push('\n') + opt_padded_line(
            parts.remark,
        ) + opt_snippet_frame(m.trace, code, parts.rows)
    } else {
        parts.head.push(' ') + opt_line(parts.said) + opt_padded_line(parts.remark)
    }
}

/// The text `text` is the message `m` laid out, with a snippet taken from
/// `code`: each of its parts is shown in some way, painted or plain, and
/// the parts stand in the layout of a message.
pub open spec fn laid_out(m: MessageView, code: Option<Seq<char>>, text: Seq<char>) -> bool {
    exists|parts: Painted| #[trigger]
        parts_fit(m, code, parts) && text == message_frame(m, code, parts)
}

/// A message laid out as plain text, with its snippet taken from `code`:
/// the label of its kind, what it says, the lines that say where it
/// belongs, its remark after an empty line, and a snippet of the code. A
/// message without a trace has neither place nor snippet.
pub open spec fn message_text_from(m: MessageView, code: Option<Seq<char>>) -> Seq<char> {
    if m.trace.len() > 0 {
        kind_label(m.kind).push(' ') + opt_line(m.message) + path_lines(m.trace).push('\n')
            + opt_padded_line(m.comment) + opt_snippet(m.trace, code)
    } else {
        kind_label(m.kind).push(' ') + opt_line(m.message) + opt_padded_line(m.comment)
    }
}

/// A message laid out as plain text, with its snippet taken from its own
/// code.
pub open spec fn message_text(m: MessageView) -> Seq<char> {
    message_text_from(m, m.code)
}

impl Message {
    /// The message laid out as text, painted if `colored` says so, with
    /// its snippet taken from `code`. A caller that has the file of the
    /// message at hand reads it and hands its text in.
    ///
    /// Painted or not, the text has the layout of a message. Plain, it is
    /// the plain text of the message.
    pub fn layout_from(&self, colored: bool, code: Option<&str>) -> (text: String)
        ensures
            laid_out(self@, source_of(code), text@),
            !colored ==> text@ == message_text_from(self@, source_of(code)),
    {
        let fresh = Logger::new(self.kind, self.trace.as_slice());
        let logger = if colored {
            fresh
        } else {
            fresh.plain()
        };
        let headed = logger.header(self.kind);
        let said = headed.line(clone_text(&self.message));
        let ghost head = choose|painted: Seq<char>|
            headed.out@ == logger.out@ + #[trigger] painted.push(' ');
        let ghost words = choose|painted: Option<Seq<char>>|
            (painted is Some <==> self.message is Some) && said.out@ == headed.out@
                + #[trigger] opt_line(painted);
        let ghost none = RowTexts { above: None, current: None, below: None };
        if self.trace.len() > 0 {
            let placed = said.path();
            let remarked = placed.padded_line(clone_text(&self.comment));
            let done = remarked.snippet(code);
            proof {
                let place = choose|painted: Seq<char>|
                    placed.out@ == said.out@ + #[trigger] painted.push('\n');
                let remark = choose|painted: Option<Seq<char>>|
                    (painted is Some <==> self.comment is Some) && remarked.out@ == placed.out@
                        + #[trigger] opt_padded_line(painted);
                let rows = choose|rows: RowTexts|
                    {
                        &&& #[trigger] opt_rows_fit(remarked.spans(), source_of(code), rows)
                        &&& done.out@ == remarked.out@ + opt_snippet_frame(
                            remarked.spans(),
                            source_of(code),
                            rows,
                        )
                    };
                let parts = Painted { head, said: words, place, remark, rows };
                assert(parts_fit(self@, source_of(code), parts));
                assert(done.out@ =~= message_frame(self@, source_of(code), parts));
                if !colored {
                    assert(done.out@ =~= message_text_from(self@, source_of(code)));
                }
            }
            done.render()
        } else {
            let done = said.padded_line(clone_text(&self.comment));
            proof {
                let remark = choose|painted: Option<Seq<char>>|
                    (painted is Some <==> self.comment is Some) && done.out@ == said.out@
                        + #[trigger] opt_padded_line(painted);
                let parts = Painted {
                    head,
                    said: words,
                    place: Seq::empty(),
                    remark,
                    rows: none,
                };
                assert(parts_fit(self@, source_of(code), parts));
                assert(done.out@ =~= message_frame(self@, source_of(code), parts));
                if !colored {
                    assert(done.out@ =~= message_text_from(self@, source_of(code)));
                }
            }
            done.render()
        }
    }

    /// The message laid out as text, painted if `colored` says so, with
    /// its snippet taken from its own code.
    pub fn layout(&self, colored: bool) -> (text: String)
        ensures
            laid_out(self@, self@.code, text@),
            !colored ==> text@ == message_text(self@),
    {
        match &self.code {
            Some(code) => self.layout_from(colored, Some(code.as_str())),
            None => self.layout_from(colored, None),
        }
    }

    /// The message laid out as painted text, for the caller to show: the
    /// label of its kind, what it says, where it belongs, its remark and a
    /// snippet of its code, each painted in the color of the kind.
    pub fn show(&self) -> (text: String)
        ensures
            laid_out(self@, self@.code, text@),
    {
        self.layout(true)
    }

    /// A message of kind `kind` without text. Its trace is `trace` in
    /// reverse, so that the last span given comes first.
    pub fn new(code: Option<&String>, trace: &[PositionInfo], kind: MessageType) -> (msg: Message)
        ensures
            msg@ == (MessageView {
                kind,
                trace: position_views(trace@).reverse(),
                code: match code {
                    Some(text) => Some(text@),
                    None => None,
                },
                message: None,
                comment: None,
            }),
    {
        let mut reversed: Vec<PositionInfo> = Vec::new();
        let mut i: usize = trace.len();
        let ghost all = position_views(trace@);
        while i > 0
            invariant
                i <= trace@.len(),
                all == position_views(trace@),
                position_views(reversed@).len() == trace@.len() - i,
                forall|k: int|
                    0 <= k < trace@.len() - i ==> position_views(reversed@)[k] == all[all.len() - 1
                        - k],
            decreases i,
        {
            let ghost before = position_views(reversed@);
            let copy = trace[i - 1].clone();
            reversed.push(copy);
            proof {
                assert(position_views(reversed@) =~= before.push(copy@));
            }
            i -= 1;
        }
        proof {
            assert(position_views(reversed@) =~= all.reverse());
        }
        Message {
            kind,
            trace: reversed,
            code: match code {
                Some(text) => Some(text.clone()),
                None => None,
            },
            message: None,
            comment: None,
        }
    }

    /// A message that is not about a place in the code.
    pub fn new_msg(message: &str, kind: MessageType) -> (msg: Message)
        ensures
            msg@ == (MessageView {
                kind,
                trace: Seq::empty(),
                code: None,
                message: Some(message@),
                comment: None,
            }),
    {
        let msg = Message {
            kind,
            trace: Vec::new(),
            code: None,
            message: Some(string_of_str(message)),
            comment: None,
        };
        proof {
            assert(position_views(msg.trace@) =~= Seq::empty());
        }
        msg
    }

    /// A message of kind `kind` about `token`, or about the end of the
    /// file where there is no token.
    pub fn new_at_token<M: Metadata>(meta: &M, token: Option<Token>, kind: MessageType) -> (msg:
        Message)
        ensures
            msg@ == message_at(
                kind,
                meta.code(),
                meta.trace(),
                token_span(
                    meta.path(),
                    meta.code(),
                    match token {
                        Some(found) => Some(found@),
                        None => None,
                    },
                ),
            ),
    {
        let position = PositionInfo::from_token(meta, token);
        let trace = Self::get_full_trace(meta, position);
        Self::new(meta.get_code(), trace.as_slice(), kind)
    }

    /// An error that is not about a place in the code.
    pub fn new_err_msg(message: &str) -> (msg: Message)
        ensures
            msg@ == (MessageView {
                kind: MessageType::Error,
                trace: Seq::empty(),
                code: None,
                message: Some(message@),
                comment: None,
            }),
    {
        Self::new_msg(message, MessageType::Error)
    }

    /// A warning that is not about a place in the code.
    pub fn new_warn_msg(message: &str) -> (msg: Message)
        ensures
            msg@ == (MessageView {
                kind: MessageType::Warning,
                trace: Seq::empty(),
                code: None,
                message: Some(message@),
                comment: None,
            }),
    {
        Self::new_msg(message, MessageType::Warning)
    }

    /// An information that is not about a place in the code.
    pub fn new_info_msg(message: &str) -> (msg: Message)
        ensures
            msg@ == (MessageView {
                kind: MessageType::Info,
                trace: Seq::empty(),
                code: None,
                message: Some(message@),
                comment: None,
            }),
    {
        Self::new_msg(message, MessageType::Info)
    }

    /// An error about `token`, or about the end of the file.
    pub fn new_err_at_token<M: Metadata>(meta: &M, token: Option<Token>) -> (msg: Message)
        ensures
            msg@ == message_at(
                MessageType::Error,
                meta.code(),
                meta.trace(),
                token_span(
                    meta.path(),
                    meta.code(),
                    match token {
                        Some(found) => Some(found@),
                        None => None,
                    },
                ),
            ),
    {
        Self::new_at_token(meta, token, MessageType::Error)
    }

    /// A warning about `token`, or about the end of the file.
    pub fn new_warn_at_token<M: Metadata>(meta: &M, token: Option<Token>) -> (msg: Message)
        ensures
            msg@ == message_at(
                MessageType::Warning,
                meta.code(),
                meta.trace(),
                token_span(
                    meta.path(),
                    meta.code(),
                    match token {
                        Some(found) => Some(found@),
                        None => None,
                    },
                ),
            ),
    {
        Self::new_at_token(meta, token, MessageType::Warning)
    }

    /// An information about `token`, or about the end of the file.
    pub fn new_info_at_token<M: Metadata>(meta: &M, token: Option<Token>) -> (msg: Message)
        ensures
            msg@ == message_at(
                MessageType::Info,
                meta.code(),
                meta.trace(),
                token_span(
                    meta.path(),
                    meta.code(),
                    match token {
                        Some(found) => Some(found@),
                        None => None,
                    },
                ),
            ),
    {
        Self::new_at_token(meta, token, MessageType::Info)
    }

    /// An error about the span `pos`.
    pub fn new_err_at_position<M: Metadata>(meta: &M, pos: PositionInfo) -> (msg: Message)
        ensures
            msg@ == message_at(MessageType::Error, meta.code(), meta.trace(), pos@),
    {
        let trace = Self::get_full_trace(meta, pos);
        Self::new(meta.get_code(), trace.as_slice(), MessageType::Error)
    }

    /// A warning about the span `pos`.
    pub fn new_warn_at_position<M: Metadata>(meta: &M, pos: PositionInfo) -> (msg: Message)
        ensures
            msg@ == message_at(MessageType::Warning, meta.code(), meta.trace(), pos@),
    {
        let trace = Self::get_full_trace(meta, pos);
        Self::new(meta.get_code(), trace.as_slice(), MessageType::Warning)
    }

    /// An information about the span `pos`.
    pub fn new_info_at_position<M: Metadata>(meta: &M, pos: PositionInfo) -> (msg: Message)
        ensures
            msg@ == message_at(MessageType::Info, meta.code(), meta.trace(), pos@),
    {
        let trace = Self::get_full_trace(meta, pos);
        Self::new(meta.get_code(), trace.as_slice(), MessageType::Info)
    }

    /// The same message saying `text`.
    pub fn message(self, text: &str) -> (msg: Message)
        ensures
            msg@ == (MessageView { message: Some(text@), ..self@ }),
    {
        let mut msg = self;
        msg.message = Some(string_of_str(text));
        msg
    }

    /// The same message with `text` as its remark.
    pub fn comment(self, text: &str) -> (msg: Message)
        ensures
            msg@ == (MessageView { comment: Some(text@), ..self@ }),
    {
        let mut msg = self;
        msg.comment = Some(string_of_str(text));
        msg
    }

    /// The contexts of `meta`, outermost first, followed by `position`.
    pub fn get_full_trace<M: Metadata>(meta: &M, position: PositionInfo) -> (trace: Vec<
        PositionInfo,
    >)
        ensures
            position_views(trace@) == meta.trace().push(position@),
    {
        let mut trace = meta.get_trace();
        let ghost before = position_views(trace@);
        trace.push(position);
        proof {
            assert(position_views(trace@) =~= before.push(position@));
        }
        trace
    }
}

} // verus!
