//! The state that is threaded through a parse: the tokens, the cursor, and
//! what diagnostics need to know about the source.

use vstd::prelude::*;
use vstd::string::StringExecFns;
use crate::compiling::failing::position_info::{
    PositionInfo,
    PositionInfoView,
    position_views,
    text_of,
};
use crate::compiling::token::{Token, TokenView, token_views};
use crate::compiling::failing::paint::{PaintColor, colored_text, shown};
use crate::text::{clone_text, string_of_str};

verus! {

/// What happened to a syntax module in a traced parse.
#[derive(Debug, Clone, Copy, PartialEq, Eq)]
pub enum DebugEvent {
    /// Parsing of the module began.
    Entered,
    /// The module parsed successfully.
    Left,
    /// The module failed to parse.
    Failed,
}

/// One line of the trace of a parse: what happened to which syntax module,
/// and how deeply nested it was.
#[derive(Debug, PartialEq, Eq)]
pub struct DebugRecord {
    /// How many traced modules enclose this one.
    pub depth: usize,
    /// What happened.
    pub event: DebugEvent,
    /// The name of the syntax module.
    pub name: String,
}

/// A trace line as a mathematical value.
pub struct DebugRecordView {
    pub depth: nat,
    pub event: DebugEvent,
    pub name: Seq<char>,
}

impl View for DebugRecord {
    type V = DebugRecordView;

    open spec fn view(&self) -> DebugRecordView {
        DebugRecordView { depth: self.depth as nat, event: self.event, name: self.name@ }
    }
}

/// How an event is marked in a line of the trace.
pub open spec fn event_tag(event: DebugEvent) -> Seq<char> {
    match event {
        DebugEvent::Entered => "[Entered]"@,
        DebugEvent::Left => "[Left]"@,
        DebugEvent::Failed => "[Failed]"@,
    }
}

/// Two spaces for each level of nesting.
pub open spec fn indentation(depth: nat) -> Seq<char> {
    Seq::new(2 * depth, |i: int| ' ')
}

/// A line of the trace as plain text: indented by its depth, the mark of
/// the event, and the name of the module.
pub open spec fn trace_line(record: DebugRecordView) -> Seq<char> {
    indentation(record.depth) + event_tag(record.event) + seq![' '] + record.name
}

impl DebugRecord {
    /// The record as a line of text. Where `colored` is set, the mark of a
    /// module that was left is painted green and that of one that failed
    /// red.
    pub fn line(&self, colored: bool) -> (text: String)
        ensures
            !colored ==> text@ == trace_line(self@),
    {
        let mut text = String::new();
        let mut level: usize = 0;
        while level < self.depth
            invariant
                level <= self.depth,
                text@ == indentation(level as nat),
            decreases self.depth - level,
        {
            text.push(' ');
            text.push(' ');
            proof {
                assert(text@ =~= indentation((level + 1) as nat));
            }
            level += 1;
        }
        let tag = match self.event {
            DebugEvent::Entered => string_of_str("[Entered]"),
            DebugEvent::Left => if colored {
                shown(&colored_text("[Left]", PaintColor::Green))
            } else {
                string_of_str("[Left]")
            },
            DebugEvent::Failed => if colored {
                shown(&colored_text("[Failed]", PaintColor::Red))
            } else {
                string_of_str("[Failed]")
            },
        };
        text.append(tag.as_str());
        text.push(' ');
        text.append(self.name.as_str());
        proof {
            if !colored {
                assert(text@ =~= trace_line(self@));
            }
        }
        text
    }
}

/// The views of a sequence of trace lines, in order.
pub open spec fn record_views(records: Seq<DebugRecord>) -> Seq<DebugRecordView> {
    records.map_values(|r: DebugRecord| r@)
}

/// What a parse is carried out on. A language that needs more than the
/// default implementation offers implements this trait for a type of its
/// own.
pub trait Metadata: Sized {
    /// The tokens to parse.
    spec fn tokens(&self) -> Seq<TokenView>;

    /// The index of the token that is parsed next.
    spec fn cursor(&self) -> usize;

    /// How deeply nested the module being parsed is, when the parse is
    /// traced.
    spec fn debug_depth(&self) -> Option<usize>;

    /// The path of the file, if it is known.
    spec fn path(&self) -> Option<Seq<char>>;

    /// The source code, if it is at hand.
    spec fn code(&self) -> Option<Seq<char>>;

    /// The spans of the enclosing contexts, outermost first.
    spec fn trace(&self) -> Seq<PositionInfoView>;

    /// The lines of the trace of the parse so far.
    spec fn debug_log(&self) -> Seq<DebugRecordView>;

    /// Metadata for parsing `tokens` from their beginning, untraced.
    fn new(tokens: Vec<Token>, path: Option<String>, code: Option<String>) -> (meta: Self)
        ensures
            meta.tokens() == token_views(tokens@),
            meta.cursor() == 0,
            meta.debug_depth() is None,
            meta.path() == text_of(path),
            meta.code() == text_of(code),
            meta.trace().len() == 0,
            meta.debug_log().len() == 0,
    ;

    /// The token at `index`, if there is one. There are no more tokens
    /// than a machine number can count.
    fn get_token_at(&self, index: usize) -> (token: Option<Token>)
        ensures
            match token {
                Some(found) => index < self.tokens().len() && found@ == self.tokens()[index as int],
                None => index >= self.tokens().len(),
            },
            token is Some ==> index < usize::MAX,
    ;

    /// The index of the token that is parsed next.
    fn get_index(&self) -> (index: usize)
        ensures
            index == self.cursor(),
    ;

    /// Moves the cursor to `index`.
    fn set_index(&mut self, index: usize)
        ensures
            final(self).cursor() == index,
            final(self).tokens() == old(self).tokens(),
            final(self).debug_depth() == old(self).debug_depth(),
            final(self).path() == old(self).path(),
            final(self).code() == old(self).code(),
            final(self).trace() == old(self).trace(),
            final(self).debug_log() == old(self).debug_log(),
    ;

    /// The nesting depth of a traced parse, `None` where the parse is not
    /// traced.
    fn get_debug(&mut self) -> (depth: Option<usize>)
        ensures
            depth == old(self).debug_depth(),
            *final(self) == *old(self),
    ;

    /// Sets the nesting depth, which turns tracing on.
    fn set_debug(&mut self, indent: usize)
        ensures
            final(self).debug_depth() == Some(indent),
            final(self).cursor() == old(self).cursor(),
            final(self).tokens() == old(self).tokens(),
            final(self).path() == old(self).path(),
            final(self).code() == old(self).code(),
            final(self).trace() == old(self).trace(),
            final(self).debug_log() == old(self).debug_log(),
    ;

    /// Adds a line to the trace of the parse.
    fn record_debug(&mut self, record: DebugRecord)
        ensures
            final(self).debug_log() == old(self).debug_log().push(record@),
            final(self).cursor() == old(self).cursor(),
            final(self).tokens() == old(self).tokens(),
            final(self).debug_depth() == old(self).debug_depth(),
            final(self).path() == old(self).path(),
            final(self).code() == old(self).code(),
            final(self).trace() == old(self).trace(),
    ;

    /// The path of the file, if it is known.
    fn get_path(&self) -> (path: Option<String>)
        ensures
            text_of(path) == self.path(),
    ;

    /// The source code, if it is at hand.
    fn get_code(&self) -> (code: Option<&String>)
        ensures
            match code {
                Some(text) => self.code() == Some(text@),
                None => self.code() is None,
            },
    ;

    /// The spans of the enclosing contexts, outermost first.
    fn get_trace(&self) -> (trace: Vec<PositionInfo>)
        ensures
            position_views(trace@) == self.trace(),
    ;

    /// Moves the cursor to the next token.
    fn increment_index(&mut self)
        requires
            old(self).cursor() < usize::MAX,
        ensures
            final(self).cursor() == old(self).cursor() + 1,
            final(self).tokens() == old(self).tokens(),
            final(self).debug_depth() == old(self).debug_depth(),
            final(self).path() == old(self).path(),
            final(self).code() == old(self).code(),
            final(self).trace() == old(self).trace(),
            final(self).debug_log() == old(self).debug_log(),
    {
        let index = self.get_index();
        self.set_index(index + 1);
    }

    /// The token under the cursor, if there is one.
    fn get_current_token(&self) -> (token: Option<Token>)
        ensures
            match token {
                Some(found) => self.cursor() < self.tokens().len() && found@
                    == self.tokens()[self.cursor() as int],
                None => self.cursor() >= self.tokens().len(),
            },
            token is Some ==> self.cursor() < usize::MAX,
    {
        let index = self.get_index();
        self.get_token_at(index)
    }

    /// Moves the cursor `offset` tokens on.
    fn offset_index(&mut self, offset: usize)
        requires
            old(self).cursor() + offset <= usize::MAX,
        ensures
            final(self).cursor() == old(self).cursor() + offset,
            final(self).tokens() == old(self).tokens(),
            final(self).debug_depth() == old(self).debug_depth(),
            final(self).path() == old(self).path(),
            final(self).code() == old(self).code(),
            final(self).trace() == old(self).trace(),
            final(self).debug_log() == old(self).debug_log(),
    {
        let index = self.get_index();
        self.set_index(index + offset);
    }
}

/// Two states of a parse that differ at most in where the cursor stands.
pub open spec fn same_but_cursor<M: Metadata>(a: M, b: M) -> bool {
    &&& a.tokens() == b.tokens()
    &&& a.debug_depth() == b.debug_depth()
    &&& a.path() == b.path()
    &&& a.code() == b.code()
    &&& a.trace() == b.trace()
    &&& a.debug_log() == b.debug_log()
}

/// Metadata that serves languages without needs of their own.
pub struct DefaultMetadata {
    /// The index of the token that is parsed next.
    pub index: usize,
    /// The tokens to parse.
    pub expr: Vec<Token>,
    /// The path of the file, if it is known.
    pub path: Option<String>,
    /// The source code, if it is at hand.
    pub code: Option<String>,
    /// The nesting depth of a traced parse.
    pub indent: Option<usize>,
    /// The spans of the enclosing contexts, outermost first.
    pub trace: Vec<PositionInfo>,
    /// The lines of the trace of the parse so far.
    pub debug_log: Vec<DebugRecord>,
}

impl Metadata for DefaultMetadata {
    open spec fn tokens(&self) -> Seq<TokenView> {
        token_views(self.expr@)
    }

    open spec fn cursor(&self) -> usize {
        self.index
    }

    open spec fn debug_depth(&self) -> Option<usize> {
        self.indent
    }

    open spec fn path(&self) -> Option<Seq<char>> {
        text_of(self.path)
    }

    open spec fn code(&self) -> Option<Seq<char>> {
        text_of(self.code)
    }

    open spec fn trace(&self) -> Seq<PositionInfoView> {
        position_views(self.trace@)
    }

    open spec fn debug_log(&self) -> Seq<DebugRecordView> {
        record_views(self.debug_log@)
    }

    fn new(tokens: Vec<Token>, path: Option<String>, code: Option<String>) -> (meta: Self) {
        DefaultMetadata {
            index: 0,
            expr: tokens,
            path,
            code,
            indent: None,
            trace: Vec::new(),
            debug_log: Vec::new(),
        }
    }

    fn get_token_at(&self, index: usize) -> (token: Option<Token>) {
        if index < self.expr.len() {
            Some(self.expr[index].clone())
        } else {
            None
        }
    }

    fn set_index(&mut self, index: usize) {
        self.index = index
    }

    fn get_index(&self) -> (index: usize) {
        self.index
    }

    fn get_debug(&mut self) -> (depth: Option<usize>) {
        self.indent
    }

    fn set_debug(&mut self, indent: usize) {
        self.indent = Some(indent)
    }

    fn record_debug(&mut self, record: DebugRecord) {
        let ghost before = record_views(self.debug_log@);
        self.debug_log.push(record);
        proof {
            assert(record_views(self.debug_log@) =~= before.push(record@));
        }
    }

    fn get_path(&self) -> (path: Option<String>) {
        clone_text(&self.path)
    }

    fn get_code(&self) -> (code: Option<&String>) {
        self.code.as_ref()
    }

    fn get_trace(&self) -> (trace: Vec<PositionInfo>) {
        let mut trace: Vec<PositionInfo> = Vec::new();
        let mut i: usize = 0;
        while i < self.trace.len()
            invariant
                i <= self.trace@.len(),
                position_views(trace@) == position_views(self.trace@).take(i as int),
            decreases self.trace@.len() - i,
        {
            let ghost before = position_views(trace@);
            let copy = self.trace[i].clone();
            trace.push(copy);
            proof {
                assert(position_views(trace@) =~= before.push(copy@));
                assert(position_views(self.trace@).take(i + 1) =~= position_views(self.trace@).take(
                    i as int,
                ).push(self.trace@[i as int]@));
            }
            i += 1;
        }
        proof {
            assert(position_views(self.trace@).take(self.trace@.len() as int) =~= position_views(
                self.trace@,
            ));
        }
        trace
    }
}

} // verus!
