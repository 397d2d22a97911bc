//! The compiler: the rules of a language, its source code, and the modes
//! that its lexer works in.

use capitalize::Capitalize;
use vstd::prelude::*;
use vstd::string::StringExecFns;
use crate::compiling::failing::failure::{Failure, FailureView};
use crate::compiling::failing::message::{Message, MessageType, MessageView};
use crate::compiling::failing::position_info::{PositionInfo, PositionInfoView, text_of};
use crate::compiling::lexing::lexer::{Lexer, LexerError, failure_info, same_lexer};
use crate::compiling::lexing::machine::{LexFailure, LexerErrorType, lex};
use crate::compiling::parser::metadata::Metadata;
use crate::compiling::parser::syntax_module::{SyntaxModule, traced_parse};
use crate::compiling::token::{Token, TokenView, token_views};
use crate::compiling_rules::rules::Rules;
use crate::text::{clone_text, string_of_str};

verus! {

/// How expressions are separated.
#[derive(Debug, PartialEq, Eq)]
pub enum SeparatorMode {
    /// Every separator is written out; line feeds are no tokens.
    Manual,
    /// Line feeds are tokens, and the parser drops those that do not
    /// separate. The string is the separator.
    SemiAutomatic(String),
    /// Line feeds are tokens and separate, unless the token before them is
    /// the continuation string.
    Automatic(String),
}

impl Clone for SeparatorMode {
    fn clone(&self) -> (out: SeparatorMode)
        ensures
            out == *self,
    {
        match self {
            SeparatorMode::Manual => SeparatorMode::Manual,
            SeparatorMode::SemiAutomatic(separator) => SeparatorMode::SemiAutomatic(
                separator.clone(),
            ),
            SeparatorMode::Automatic(continuation) => SeparatorMode::Automatic(
                continuation.clone(),
            ),
        }
    }
}

/// How scopes are expressed.
#[derive(Debug, PartialEq, Eq, Clone, Copy)]
pub enum ScopingMode {
    /// Scopes stand between two tokens, such as braces.
    Block,
    /// Scopes are told by indentation.
    Indent,
}

/// The text `text` with its first character in upper case and the others
/// in lower case, as `capitalize` of the crate `capitalize` writes it.
pub uninterp spec fn capitalized(text: Seq<char>) -> Seq<char>;

/// `capitalize::Capitalize::capitalize` returns the text with its first
/// character in upper case and every other character in lower case, by the
/// case mappings of Unicode; the result is named, not spelled out.
#[verifier::external_body]
fn capitalize_text(text: &str) -> (out: String)
    ensures
        out@ == capitalized(text@),
{
    text.capitalize()
}

/// What is said of a failure of kind `kind` in the region called `name`.
pub open spec fn lexer_error_text(kind: LexerErrorType, name: Seq<char>) -> Seq<char> {
    match kind {
        LexerErrorType::Singleline => name + " cannot be multiline"@,
        LexerErrorType::Unclosed => name + " unclosed"@,
    }
}

/// The message that reports a failed run of the lexer to the user: an
/// error at the place of the failure that names the region, capitalized.
pub open spec fn lexer_error_message(
    kind: LexerErrorType,
    info: PositionInfoView,
    name: Seq<char>,
    code: Option<Seq<char>>,
) -> MessageView {
    MessageView {
        kind: MessageType::Error,
        trace: seq![info],
        code,
        message: Some(lexer_error_text(kind, name)),
        comment: Some("test"@),
    }
}

/// Says what went wrong in the region called `name`.
pub fn describe_lexer_error(kind: LexerErrorType, name: String) -> (text: String)
    ensures
        text@ == lexer_error_text(kind, name@),
{
    let mut text = name;
    match kind {
        LexerErrorType::Singleline => text.append(" cannot be multiline"),
        LexerErrorType::Unclosed => text.append(" unclosed"),
    }
    text
}

/// The state that the parse of a whole code starts in: the tokens of the
/// code with the cursor at the first of them, untraced, with the path and
/// the code of the compiler and nothing in its traces.
pub open spec fn fresh_state<M: Metadata>(
    start: M,
    tokens: Seq<TokenView>,
    path: Option<Seq<char>>,
    code: Option<Seq<char>>,
) -> bool {
    &&& start.tokens() == tokens
    &&& start.cursor() == 0
    &&& start.debug_depth() is None
    &&& start.path() == path
    &&& start.code() == code
    &&& start.trace().len() == 0
    &&& start.debug_log().len() == 0
}

/// A parse of the module as the compiler runs it: traced if `debug` says
/// so, plain if not.
pub open spec fn parsed_from<M: Metadata, S: SyntaxModule<M>>(
    debug: bool,
    before: S,
    start: M,
    after: S,
    done: M,
    parsed: Result<(), Failure>,
) -> bool {
    if debug {
        traced_parse::<M, S>(before, start, after, done, parsed)
    } else {
        S::parses(before, start, after, done, parsed)
    }
}

/// What is left of a parse of the whole code: the state as the module
/// left it, or the failure of the module.
pub open spec fn parse_result<M: Metadata>(done: M, parsed: Result<(), Failure>) -> Result<
    M,
    Failure,
> {
    match parsed {
        Ok(_) => Ok(done),
        Err(failure) => Err(failure),
    }
}

/// What is left of a parse of the whole code: the metadata as the module
/// left it, or the failure of the module.
pub fn finish_parse<M: Metadata>(meta: M, parsed: Result<(), Failure>) -> (result: Result<M, Failure>)
    ensures
        result == parse_result(meta, parsed),
{
    match parsed {
        Ok(_) => Ok(meta),
        Err(failure) => Err(failure),
    }
}

/// The compiler of a language: its lexer, and the code to compile.
#[derive(Debug, PartialEq)]
pub struct Compiler {
    /// Name of the language.
    pub name: String,
    /// The source code, once it has been loaded.
    pub code: Option<String>,
    /// Path of the file that is compiled, if there is one.
    pub path: Option<String>,
    /// Whether the parse is traced.
    pub debug: bool,
    /// The lexer that turns the code into tokens.
    pub lexer: Lexer,
}

impl Clone for Compiler {
    fn clone(&self) -> (out: Compiler)
        ensures
            out.name == self.name,
            out.code == self.code,
            out.path == self.path,
            out.debug == self.debug,
            same_lexer(self.lexer, out.lexer),
    {
        Compiler {
            name: self.name.clone(),
            code: clone_text(&self.code),
            path: clone_text(&self.path),
            debug: self.debug,
            lexer: self.lexer.clone(),
        }
    }
}

impl Compiler {
    /// A compiler for the language called `name` with the rules `rules`. No
    /// code is loaded, no path is set, and the parse is not traced; the
    /// lexer works in block scoping and manual separator mode.
    pub fn new(name: &str, rules: Rules) -> (compiler: Compiler)
        ensures
            compiler.name@ == name@,
            compiler.code is None,
            compiler.path is None,
            !compiler.debug,
            compiler.lexer.rules == rules,
            compiler.lexer.path is None,
            compiler.lexer.separator_mode is Manual,
            compiler.lexer.escape_symbol == rules.escape_symbol,
            compiler.lexer.scoping_mode is Block,
    {
        Compiler {
            name: string_of_str(name),
            code: None,
            path: None,
            debug: false,
            lexer: Lexer::new(rules),
        }
    }

    /// Makes indentation tell the scopes.
    pub fn use_indents(&mut self)
        ensures
            *final(self) == (Compiler {
                lexer: Lexer { scoping_mode: ScopingMode::Indent, ..old(self).lexer },
                ..*old(self)
            }),
    {
        self.lexer.scoping_mode = ScopingMode::Indent
    }

    /// Sets how expressions are separated.
    pub fn set_separator(&mut self, mode: SeparatorMode)
        ensures
            *final(self) == (Compiler {
                lexer: Lexer { separator_mode: mode, ..old(self).lexer },
                ..*old(self)
            }),
    {
        self.lexer.separator_mode = mode
    }

    /// Loads the source code.
    pub fn load(&mut self, code: &str)
        ensures
            final(self).code matches Some(text) && text@ == code@,
            final(self).name == old(self).name,
            final(self).path == old(self).path,
            final(self).debug == old(self).debug,
            final(self).lexer == old(self).lexer,
    {
        self.code = Some(string_of_str(code));
    }

    /// Sets the path of the file that is compiled.
    pub fn set_path(&mut self, file_path: String)
        ensures
            *final(self) == (Compiler { path: Some(file_path), ..*old(self) }),
    {
        self.path = Some(file_path);
    }

    /// Whether the compiler is ready to run: code has been loaded, and the
    /// rules are well formed.
    pub fn is_ready(&self) -> (ready: bool)
        ensures
            ready == (self.code is Some && self.lexer.rules.well_formed()),
    {
        self.code.is_some() && self.lexer.rules.is_well_formed()
    }

    /// Turns the code that was loaded into tokens.
    pub fn tokenize(&self) -> (result: Result<Vec<Token>, LexerError>)
        requires
            self.code is Some,
            self.lexer.rules.well_formed(),
        ensures
            match result {
                Ok(tokens) => lex(self.lexer.config(), self.code->0@) == Ok::<_, LexFailure>(
                    token_views(tokens@),
                ),
                Err((kind, info)) => {
                    &&& lex(self.lexer.config(), self.code->0@) matches Err(failure)
                    &&& kind == failure.kind
                    &&& info@ == failure_info(text_of(self.lexer.path), failure)
                },
            },
    {
        match &self.code {
            Some(code) => self.lexer.tokenize(code.as_str()),
            None => vstd::pervasive::unreached(),
        }
    }

    /// Makes the parse keep a trace.
    pub fn debug(&mut self)
        ensures
            *final(self) == (Compiler { debug: true, ..*old(self) }),
    {
        self.debug = true
    }

    /// The loud failure that reports a failed run of the lexer, given the
    /// capitalized name of the region concerned.
    pub fn lexer_failure(&self, kind: LexerErrorType, info: PositionInfo, name: String) -> (failure:
        Failure)
        ensures
            failure@ == FailureView::Loud(
                lexer_error_message(kind, info@, name@, text_of(self.code)),
            ),
    {
        let text = describe_lexer_error(kind, name);
        let mut trace: Vec<PositionInfo> = Vec::new();
        trace.push(info);
        let message = Message::new(self.code.as_ref(), trace.as_slice(), MessageType::Error).message(
            text.as_str(),
        ).comment("test");
        proof {
            assert(message@.trace =~= seq![info@]);
        }
        Failure::Loud(message)
    }

    /// Turns the code that was loaded into tokens and parses them with
    /// `module`, traced if the compiler says so.
    ///
    /// Where the lexer fails, the module is left alone and the failure is
    /// loud: an error at the place where the lexer stopped that names the
    /// region, capitalized. Where the lexer succeeds, the module is parsed
    /// on a fresh state that holds the tokens, and the result is that of
    /// the module: its failure, or the state as the module left it.
    pub fn compile<M: Metadata, S: SyntaxModule<M>>(&self, module: &mut S) -> (result: Result<
        M,
        Failure,
    >)
        requires
            self.code is Some,
            self.lexer.rules.well_formed(),
        ensures
            lex(self.lexer.config(), self.code->0@) matches Err(failure) ==> {
                &&& result matches Err(reported)
                &&& reported@ == FailureView::Loud(
                    lexer_error_message(
                        failure.kind,
                        failure_info(text_of(self.lexer.path), failure),
                        capitalized(failure.region_name),
                        text_of(self.code),
                    ),
                )
            },
            lex(self.lexer.config(), self.code->0@) is Err ==> *final(module) == *old(module),
            lex(self.lexer.config(), self.code->0@) matches Ok(tokens) ==> exists|
                start: M,
                done: M,
                parsed: Result<(), Failure>,
            |
                {
                    &&& fresh_state(start, tokens, text_of(self.path), text_of(self.code))
                    &&& #[trigger] parsed_from::<M, S>(
                        self.debug,
                        *old(module),
                        start,
                        *final(module),
                        done,
                        parsed,
                    )
                    &&& result == parse_result(done, parsed)
                },
    {
        match self.tokenize() {
            Ok(lexem) => {
                let mut meta = M::new(lexem, clone_text(&self.path), clone_text(&self.code));
                let ghost start = meta;
                let parsed = if self.debug {
                    module.parse_debug(&mut meta)
                } else {
                    module.parse(&mut meta)
                };
                let ghost done = meta;
                let result = finish_parse(meta, parsed);
                proof {
                    assert(parsed_from::<M, S>(self.debug, *old(module), start, *module, done, parsed));
                }
                result
            },
            Err((kind, info)) => {
                let name = match &info.data {
                    Some(data) => capitalize_text(data.as_str()),
                    None => vstd::pervasive::unreached(),
                };
                Err(self.lexer_failure(kind, info, name))
            },
        }
    }
}

} // verus!
