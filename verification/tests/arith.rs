use heraclitus_compiler::prelude::{
    number, syntax, token, Compiler, DefaultMetadata, Failure, LexerErrorType, Metadata, Position,
    PositionInfo, Region, Rules, ScopingMode, SeparatorMode, SyntaxModule, SyntaxResult,
};

#[derive(Clone, Copy, Debug, PartialEq)]
enum ExprId {
    Add,
    Number,
}

#[derive(Debug)]
enum ExprType {
    Add(Add),
    Number(Number),
}

#[derive(Debug)]
struct Expr {
    expr: Option<Box<ExprType>>,
    excludes: Option<ExprId>,
}

impl Expr {
    fn exclude(&mut self, target: ExprId) {
        self.excludes = Some(target);
    }

    fn get<M, S>(&mut self, meta: &mut M, mut module: S, cb: fn(S) -> ExprType, id: ExprId) -> SyntaxResult
    where
        M: Metadata,
        S: SyntaxModule<M>,
    {
        // Check if exclusion occurs
        if let Some(excludes) = &self.excludes {
            if *excludes == id {
                return Err(Failure::Quiet(PositionInfo::from_metadata(meta)));
            }
        }
        // Skip comments
        while let Some(token) = meta.get_current_token() {
            if token.word.starts_with("//") || token.word.starts_with("\n") {
                meta.increment_index();
            } else {
                break;
            }
        }
        // Match syntax
        match syntax(meta, &mut module) {
            Ok(()) => {
                self.expr = Some(Box::new(cb(module)));
                Ok(())
            }
            Err(details) => Err(details),
        }
    }

    fn parse_module(&mut self, meta: &mut DefaultMetadata, module: ExprType) -> SyntaxResult {
        match module {
            ExprType::Add(md) => self.get(meta, md, ExprType::Add, ExprId::Add),
            ExprType::Number(md) => self.get(meta, md, ExprType::Number, ExprId::Number),
        }
    }
}

impl SyntaxModule<DefaultMetadata> for Expr {
    fn name() -> &'static str {
        "Expr"
    }

    fn new() -> Self {
        Expr { expr: None, excludes: None }
    }

    fn parse(&mut self, meta: &mut DefaultMetadata) -> SyntaxResult {
        let modules: Vec<ExprType> =
            vec![ExprType::Add(Add::new()), ExprType::Number(Number::new())];
        let mut err = None;
        for module in modules {
            match self.parse_module(meta, module) {
                Ok(()) => return Ok(()),
                Err(details) => {
                    err = Some(details);
                }
            }
        }
        Err(err.unwrap())
    }
}

#[derive(Debug)]
struct Add {
    left: Option<Expr>,
    right: Option<Expr>,
}

impl SyntaxModule<DefaultMetadata> for Add {
    fn name() -> &'static str {
        "Add"
    }

    fn new() -> Self {
        Add { left: None, right: None }
    }

    fn parse(&mut self, meta: &mut DefaultMetadata) -> SyntaxResult {
        match meta.expr.get(meta.index) {
            Some(_) => {
                let mut left = Expr::new();
                let mut right = Expr::new();
                left.exclude(ExprId::Add);
                syntax(meta, &mut left)?;
                self.left = Some(left);
                token(meta, "+")?;
                syntax(meta, &mut right)?;
                self.right = Some(right);
                Ok(())
            }
            None => Err(Failure::Quiet(PositionInfo::at_eof(meta))),
        }
    }
}

#[derive(Debug)]
struct Number {
    value: String,
}

impl SyntaxModule<DefaultMetadata> for Number {
    fn name() -> &'static str {
        "Number"
    }

    fn new() -> Self {
        Number { value: String::new() }
    }

    fn parse(&mut self, meta: &mut DefaultMetadata) -> SyntaxResult {
        self.value = number(meta, vec![])?;
        Ok(())
    }
}

fn arith_rules() -> Rules {
    let symbols = vec!['+'];
    let region =
        Region::new_global(vec![Region::new("string", "string literal", "'", "'", vec![], None)]);
    Rules::new(symbols, vec![], region)
}

#[test]
fn arith() {
    let rules = arith_rules();
    let mut compiler = Compiler::new("Arith", rules);
    compiler.load("12.24 +.123 + 12 + 321");
    let mut expr = Expr::new();
    assert!(compiler.compile(&mut expr).is_ok());
}

#[test]
fn arith_parses_every_token() {
    let mut compiler = Compiler::new("Arith", arith_rules());
    compiler.load("12.24 +.123 + 12 + 321");
    let mut expr = Expr::new();
    let meta: DefaultMetadata = compiler.compile(&mut expr).unwrap();
    assert_eq!(meta.expr.len(), 7);
    assert_eq!(meta.index, 7);
    assert_eq!(meta.code, Some("12.24 +.123 + 12 + 321".to_string()));
    assert!(expr.expr.is_some());
    match *expr.expr.unwrap() {
        ExprType::Add(add) => {
            assert!(add.left.is_some());
            assert!(add.right.is_some());
        }
        ExprType::Number(number) => panic!("a sum was expected, not {}", number.value),
    }
}

#[test]
fn compile_reports_a_lexer_failure_loudly() {
    let mut compiler = Compiler::new("Arith", arith_rules());
    compiler.set_path("sums.txt".to_string());
    compiler.load("1 + 'two");
    let mut expr = Expr::new();
    let result: Result<DefaultMetadata, Failure> = compiler.compile(&mut expr);
    let message = result.err().unwrap().unwrap_loud();
    assert_eq!(message.message, Some("String literal unclosed".to_string()));
    assert_eq!(message.comment, Some("test".to_string()));
    assert_eq!(message.code, Some("1 + 'two".to_string()));
    assert_eq!(message.trace.len(), 1);
    assert_eq!(message.trace[0].data, Some("string literal".to_string()));
    assert_eq!(message.trace[0].position, Position::Pos(1, 9));
}

#[test]
fn compile_reports_a_singleline_violation() {
    let mut string = Region::new("string", "string literal", "'", "'", vec![], None);
    string.singleline = true;
    let rules = Rules::new(vec!['+'], vec![], Region::new_global(vec![string]));
    let mut compiler = Compiler::new("Arith", rules);
    compiler.load("1 + 'two\nthree'");
    let mut expr = Expr::new();
    let result: Result<DefaultMetadata, Failure> = compiler.compile(&mut expr);
    let message = result.err().unwrap().unwrap_loud();
    assert_eq!(message.message, Some("String literal cannot be multiline".to_string()));
}

#[test]
fn compiler_settings() {
    let mut compiler = Compiler::new("Arith", arith_rules());
    assert!(!compiler.is_ready());
    assert_eq!(compiler.clone(), compiler);
    assert_eq!(compiler.name, "Arith");
    assert_eq!(compiler.code, None);
    assert_eq!(compiler.path, None);
    assert!(!compiler.debug);
    assert_eq!(compiler.lexer.scoping_mode, ScopingMode::Block);
    assert_eq!(compiler.lexer.separator_mode, SeparatorMode::Manual);
    compiler.use_indents();
    assert_eq!(compiler.lexer.scoping_mode, ScopingMode::Indent);
    compiler.set_separator(SeparatorMode::Automatic("\\".to_string()));
    assert_eq!(compiler.lexer.separator_mode, SeparatorMode::Automatic("\\".to_string()));
    compiler.debug();
    assert!(compiler.debug);
    compiler.set_path("x".to_string());
    assert_eq!(compiler.path, Some("x".to_string()));
    compiler.load("a\nb 'c");
    assert!(compiler.is_ready());
    assert_eq!(compiler.code, Some("a\nb 'c".to_string()));
    let (kind, info) = compiler.tokenize().unwrap_err();
    assert_eq!(kind, LexerErrorType::Unclosed);
    assert_eq!(info.path, None);
    compiler.load("a\nb");
    let words: Vec<String> = compiler.tokenize().unwrap().into_iter().map(|t| t.word).collect();
    assert_eq!(words, vec!["a", "\n", "b"]);
}
