//! The recursive-descent parser: tokens to a syntax tree.
//!
//! Every parsing method keeps the parser well formed (the token list ends with
//! `Eof` and the position stays on a token), never moves backwards, and moves
//! forward whenever it succeeds on a construct that spans at least one token.
//! Errors stop the current item; the module parser then skips to the next item
//! boundary and keeps going, so one run reports an error for every bad item.
//! Each method names in its contract the function of `grammar` it computes:
//! its result, and where it stops, are the ones that function gives.
use vstd::prelude::*;
use crate::ast::{UnaryOp, expr_size,
    expr_span, BinaryOp, EnumDecl, Expr, Field, Function, Item, MatchArm, Module, Param, Pattern,
    Stmt, StructDecl,
};
use crate::diagnostic::{diags_view, Diagnostic, Span, SpecDiagnostic};
use crate::grammar::{
    self, arm_parsed, arms_model, enum_parsed, expr_model, expr_parsed, exprs_model, exprs_parsed, fields_model,
    function_parsed, is_keyword, lemma_exprs_model_concat, item_parsed, items_model, join_texts, lemma_dotted_is_joined, lemma_span_of_model,
    module_parsed, params_model, params_parsed, path_parsed, pattern_parsed, stmt_parsed, stmts_model, stmts_parsed,
    struct_parsed, text_parsed, ItemModel, PatternModel, StmtModel, TypedName,
};
use crate::lexer::{tokens_view, Keyword, SpecToken, SpecTokenKind, Symbol, Token, TokenKind};
use crate::text::{push_str, strings_view};

verus! {

pub struct Parser {
    tokens: Vec<Token>,
    pos: usize,
}

/// Whether a token list can be parsed: it is non-empty and ends with `Eof`.
pub open spec fn ends_with_eof(tokens: Seq<Token>) -> bool {
    &&& tokens.len() > 0
    &&& tokens[tokens.len() - 1].kind is Eof
}

impl Parser {
    /// The parser's invariant: the tokens end with `Eof` and the position is on
    /// a token.
    pub open spec fn wf(&self) -> bool {
        &&& ends_with_eof(self.spec_tokens())
        &&& self.spec_pos() < self.spec_tokens().len()
    }

    pub closed spec fn spec_tokens(&self) -> Seq<Token> {
        self.tokens@
    }

    pub closed spec fn spec_pos(&self) -> int {
        self.pos as int
    }

    /// The tokens as plain values.
    pub open spec fn toks(&self) -> Seq<SpecToken> {
        tokens_view(self.spec_tokens())
    }

    /// The kind of the token at the current position.
    pub open spec fn current(&self) -> SpecTokenKind {
        self.spec_tokens()[self.spec_pos()]@.kind
    }

    /// `next` is `self` moved forward (or left in place), over the same tokens.
    pub open spec fn advanced_from(&self, prev: &Parser) -> bool {
        &&& self.wf()
        &&& self.spec_tokens() == prev.spec_tokens()
        &&& self.spec_pos() >= prev.spec_pos()
    }

    pub fn new(tokens: Vec<Token>) -> (p: Self)
        requires
            ends_with_eof(tokens@),
        ensures
            p.wf(),
            p.spec_tokens() == tokens@,
            p.spec_pos() == 0,
    {
        Parser { tokens, pos: 0 }
    }

    /// Parses a whole module: items until `Eof`. Fails with one diagnostic for
    /// each item that did not parse.
    pub fn parse_module(&mut self) -> (r: Result<Module, Vec<Diagnostic>>)
        requires
            old(self).wf(),
        ensures
            final(self).advanced_from(old(self)),
            final(self).current() is Eof,
            r matches Err(ds) ==> ds@.len() > 0,
            module_parsed(r) == grammar::parse_module(old(self).toks(), old(self).spec_pos()),
    {
        let ghost t = self.toks();
        let mut items: Vec<Item> = Vec::new();
        let mut diagnostics: Vec<Diagnostic> = Vec::new();
        assert(items_model(items@) =~= Seq::<ItemModel>::empty());
        assert(diags_view(diagnostics@) =~= Seq::<SpecDiagnostic>::empty());
        while !self.at_eof()
            invariant
                self.advanced_from(old(self)),
                self.toks() == t,
                grammar::module_rest(t, self.spec_pos(), items_model(items@), diags_view(diagnostics@))
                    == grammar::parse_module(t, old(self).spec_pos()),
            decreases self.tokens@.len() - self.pos,
        {
            let ghost start = self.pos;
            let ghost before_items = items@;
            let ghost before_diags = diagnostics@;
            match self.parse_item() {
                Ok(item) => {
                    items.push(item);
                    assert(items_model(items@) =~= items_model(before_items).push(grammar::item_model(item)));
                },
                Err(diagnostic) => {
                    diagnostics.push(diagnostic);
                    assert(diags_view(diagnostics@) =~= diags_view(before_diags).push(diagnostic@));
                    self.recover_to_item_boundary();
                },
            }
            assert(self.pos > start);
        }
        if diagnostics.len() == 0 {
            assert(diags_view(diagnostics@).len() == 0);
            Ok(Module { items })
        } else {
            Err(diagnostics)
        }
    }

    /// Whether the current token starts an item.
    pub open spec fn at_item_boundary(&self) -> bool {
        ||| self.current() == SpecTokenKind::Keyword(Keyword::Module)
        ||| self.current() == SpecTokenKind::Keyword(Keyword::Import)
        ||| self.current() == SpecTokenKind::Keyword(Keyword::Export)
        ||| self.current() == SpecTokenKind::Keyword(Keyword::Struct)
        ||| self.current() == SpecTokenKind::Keyword(Keyword::Enum)
        ||| self.current() == SpecTokenKind::Keyword(Keyword::Fn)
    }

    fn parse_item(&mut self) -> (r: Result<Item, Diagnostic>)
        requires
            old(self).wf(),
            !(old(self).current() is Eof),
        ensures
            final(self).advanced_from(old(self)),
            r is Ok ==> final(self).spec_pos() > old(self).spec_pos(),
            r is Err && final(self).spec_pos() == old(self).spec_pos() ==> !old(
                self,
            ).at_item_boundary(),
            item_parsed(r, final(self).spec_pos()) == grammar::parse_item(old(self).toks(), old(self).spec_pos()),
    {
        if self.consume_keyword(Keyword::Module).is_some() {
            let (path, _name_span) = self.parse_path_span()?;
            let name = crate::ast::join_dotted(&path);
            proof {
                lemma_dotted_is_joined(path@);
            }
            self.expect_symbol(Symbol::Semicolon, "expected `;` after module declaration")?;
            return Ok(Item::ModuleDecl { name });
        }
        let exported = self.consume_keyword(Keyword::Export).is_some();
        if self.consume_keyword(Keyword::Import).is_some() {
            let (path, _path_span) = self.parse_path_span()?;
            self.expect_symbol(Symbol::Semicolon, "expected `;` after import")?;
            return Ok(Item::Import { path });
        }
        if self.consume_keyword(Keyword::Struct).is_some() {
            let decl = self.parse_struct(exported)?;
            return Ok(Item::Struct(decl));
        }
        if self.consume_keyword(Keyword::Enum).is_some() {
            let decl = self.parse_enum(exported)?;
            return Ok(Item::Enum(decl));
        }
        if self.consume_keyword(Keyword::Fn).is_some() {
            let function = self.parse_function(exported)?;
            return Ok(Item::Function(function));
        }
        Err(self.error_here("PARSE_EXPECTED_ITEM", "expected module, import, export, struct, enum, trait, impl, or fn"))
    }

    fn parse_struct(&mut self, exported: bool) -> (r: Result<StructDecl, Diagnostic>)
        requires
            old(self).wf(),
        ensures
            final(self).advanced_from(old(self)),
            r is Ok ==> final(self).spec_pos() > old(self).spec_pos(),
            struct_parsed(r, final(self).spec_pos()) == grammar::parse_struct(old(self).toks(), old(self).spec_pos(), exported),
    {
        let ghost t = self.toks();
        let (name, name_span) = self.expect_ident_span("expected struct name")?;
        self.expect_symbol(Symbol::LBrace, "expected `{` after struct name")?;
        let ghost open = self.spec_pos();
        let mut fields: Vec<Field> = Vec::new();
        assert(fields_model(fields@) =~= Seq::<TypedName>::empty());
        while !self.check_symbol(Symbol::RBrace) && !self.at_eof()
            invariant_except_break
                grammar::field_list(t, self.spec_pos(), fields_model(fields@)) == grammar::field_list(t, open, Seq::empty()),
            invariant
                self.advanced_from(old(self)),
                self.spec_pos() > old(self).spec_pos(),
                self.toks() == t,
                grammar::field_list(t, open, Seq::empty()) matches Err(e) ==> grammar::parse_struct(
                    t,
                    old(self).spec_pos(),
                    exported,
                ) == Err::<(ItemModel, int), _>(e),
            ensures
                grammar::field_list(t, open, Seq::empty()) == Ok::<_, (SpecDiagnostic, int)>((fields_model(fields@), self.spec_pos())),
            decreases self.tokens@.len() - self.pos,
        {
            let ghost acc = fields@;
            let (field_name, field_name_span) = self.expect_ident_span("expected field name")?;
            self.expect_symbol(Symbol::Colon, "expected `:` after field name")?;
            let (ty, _ty_span) = self.parse_type_annotation("expected field type")?;
            let field = Field { name: field_name, name_span: field_name_span, ty };
            let ghost fm = (field.name@, field.name_span, field.ty@);
            fields.push(field);
            assert(fields_model(fields@) =~= fields_model(acc).push(fm));
            if self.consume_symbol(Symbol::Comma).is_none() {
                break;
            }
        }
        self.expect_symbol(Symbol::RBrace, "expected `}` after struct fields")?;
        Ok(StructDecl { exported, name, name_span, fields })
    }

    fn parse_enum(&mut self, exported: bool) -> (r: Result<EnumDecl, Diagnostic>)
        requires
            old(self).wf(),
        ensures
            final(self).advanced_from(old(self)),
            r is Ok ==> final(self).spec_pos() > old(self).spec_pos(),
            enum_parsed(r, final(self).spec_pos()) == grammar::parse_enum(old(self).toks(), old(self).spec_pos(), exported),
    {
        let ghost t = self.toks();
        let (name, name_span) = self.expect_ident_span("expected enum name")?;
        self.expect_symbol(Symbol::LBrace, "expected `{` after enum name")?;
        let ghost open = self.spec_pos();
        let mut variants: Vec<String> = Vec::new();
        assert(strings_view(variants@) =~= Seq::<Seq<char>>::empty());
        while !self.check_symbol(Symbol::RBrace) && !self.at_eof()
            invariant_except_break
                grammar::variant_list(t, self.spec_pos(), strings_view(variants@)) == grammar::variant_list(t, open, Seq::empty()),
            invariant
                self.advanced_from(old(self)),
                self.spec_pos() > old(self).spec_pos(),
                self.toks() == t,
                grammar::variant_list(t, open, Seq::empty()) matches Err(e) ==> grammar::parse_enum(
                    t,
                    old(self).spec_pos(),
                    exported,
                ) == Err::<(ItemModel, int), _>(e),
            ensures
                grammar::variant_list(t, open, Seq::empty()) == Ok::<_, (SpecDiagnostic, int)>((strings_view(variants@), self.spec_pos())),
            decreases self.tokens@.len() - self.pos,
        {
            let ghost acc = variants@;
            let variant = self.expect_ident("expected enum variant name")?;
            variants.push(variant);
            assert(strings_view(variants@) =~= strings_view(acc).push(variant@));
            if self.consume_symbol(Symbol::Comma).is_none() {
                break;
            }
        }
        self.expect_symbol(Symbol::RBrace, "expected `}` after enum variants")?;
        Ok(EnumDecl { exported, name, name_span, variants })
    }

    fn parse_function(&mut self, exported: bool) -> (r: Result<Function, Diagnostic>)
        requires
            old(self).wf(),
        ensures
            final(self).advanced_from(old(self)),
            r is Ok ==> final(self).spec_pos() > old(self).spec_pos(),
            function_parsed(r, final(self).spec_pos()) == grammar::parse_function(old(self).toks(), old(self).spec_pos(), exported),
    {
        let (name, name_span) = self.expect_ident_span("expected function name")?;
        self.expect_symbol(Symbol::LParen, "expected `(` after function name")?;
        let params = self.parse_params()?;
        self.expect_symbol(Symbol::RParen, "expected `)` after parameters")?;
        let return_type = if self.consume_symbol(Symbol::Arrow).is_some() {
            let (ty, _span) = self.parse_type_annotation("expected return type after `->`")?;
            Some(ty)
        } else {
            None
        };
        self.expect_symbol(Symbol::LBrace, "expected function body")?;
        let body = self.parse_block_body()?;
        Ok(Function { exported, name, name_span, params, return_type, body })
    }

    fn parse_params(&mut self) -> (r: Result<Vec<Param>, Diagnostic>)
        requires
            old(self).wf(),
        ensures
            final(self).advanced_from(old(self)),
            r matches Ok(ps) ==> (ps@.len() > 0 ==> final(self).spec_pos() > old(self).spec_pos()),
            params_parsed(r, final(self).spec_pos()) == grammar::parse_params(old(self).toks(), old(self).spec_pos()),
    {
        let ghost t = self.toks();
        let mut params: Vec<Param> = Vec::new();
        assert(params_model(params@) =~= Seq::<TypedName>::empty());
        if self.check_symbol(Symbol::RParen) {
            return Ok(params);
        }
        loop
            invariant_except_break
                grammar::param_list(t, self.spec_pos(), params_model(params@)) == grammar::param_list(
                    t,
                    old(self).spec_pos(),
                    Seq::empty(),
                ),
            invariant
                self.advanced_from(old(self)),
                self.toks() == t,
                params@.len() > 0 ==> self.spec_pos() > old(self).spec_pos(),
                grammar::parse_params(t, old(self).spec_pos()) == grammar::param_list(t, old(self).spec_pos(), Seq::empty()),
            ensures
                grammar::param_list(t, old(self).spec_pos(), Seq::empty()) == Ok::<_, (SpecDiagnostic, int)>((params_model(params@), self.spec_pos())),
            decreases self.tokens@.len() - self.pos,
        {
            let ghost acc = params@;
            let (name, name_span) = self.expect_ident_span("expected parameter name")?;
            self.expect_symbol(Symbol::Colon, "expected `:` after parameter name")?;
            let (ty, _span) = self.parse_type_annotation("expected parameter type")?;
            let param = Param { name, name_span, ty };
            let ghost pm = (param.name@, param.name_span, param.ty@);
            params.push(param);
            assert(params_model(params@) =~= params_model(acc).push(pm));
            if self.consume_symbol(Symbol::Comma).is_none() {
                break;
            }
        }
        Ok(params)
    }

    /// Parses a dotted path `a.b.c`: the names and the span they cover.
    fn parse_path_span(&mut self) -> (r: Result<(Vec<String>, Span), Diagnostic>)
        requires
            old(self).wf(),
        ensures
            final(self).advanced_from(old(self)),
            r is Ok ==> final(self).spec_pos() > old(self).spec_pos(),
            r matches Ok((path, span)) ==> path@.len() > 0 && span.start == old(self).spec_tokens()[old(
                self,
            ).spec_pos()].span.start,
            path_parsed(r, final(self).spec_pos()) == grammar::parse_path(old(self).toks(), old(self).spec_pos()),
    {
        let ghost t = self.toks();
        let start = self.peek_span().start;
        let first = self.expect_ident("expected module path")?;
        let mut path: Vec<String> = Vec::new();
        path.push(first);
        assert(strings_view(path@) =~= seq![first@]);
        let mut end = self.previous_span().end;
        while self.consume_symbol(Symbol::Dot).is_some()
            invariant
                self.advanced_from(old(self)),
                self.spec_pos() > old(self).spec_pos(),
                self.toks() == t,
                path@.len() > 0,
                start == old(self).spec_tokens()[old(self).spec_pos()].span.start,
                end == grammar::end_before(t, self.spec_pos()),
                grammar::path_rest(t, self.spec_pos(), strings_view(path@), start) == grammar::parse_path(
                    t,
                    old(self).spec_pos(),
                ),
            decreases self.tokens@.len() - self.pos,
        {
            let ghost acc = path@;
            let name = self.expect_ident("expected name after `.`")?;
            path.push(name);
            assert(strings_view(path@) =~= strings_view(acc).push(name@));
            end = self.previous_span().end;
        }
        Ok((path, Span::new(start, end)))
    }

    fn parse_block_body(&mut self) -> (r: Result<Vec<Stmt>, Diagnostic>)
        requires
            old(self).wf(),
        ensures
            final(self).advanced_from(old(self)),
            r is Ok ==> final(self).spec_pos() > old(self).spec_pos(),
            stmts_parsed(r, final(self).spec_pos()) == grammar::parse_block(old(self).toks(), old(self).spec_pos()),
        decreases old(self).tokens@.len() - old(self).pos, 8nat,
    {
        let ghost t = self.toks();
        let mut body: Vec<Stmt> = Vec::new();
        assert(stmts_model(body@) =~= Seq::<StmtModel>::empty());
        while !self.check_symbol(Symbol::RBrace) && !self.at_eof()
            invariant
                self.advanced_from(old(self)),
                self.toks() == t,
                grammar::block_rest(t, self.spec_pos(), stmts_model(body@)) == grammar::parse_block(
                    t,
                    old(self).spec_pos(),
                ),
            decreases self.tokens@.len() - self.pos,
        {
            let ghost acc = body@;
            let stmt = self.parse_stmt()?;
            body.push(stmt);
            assert(body@.drop_last() == acc);
        }
        self.expect_symbol(Symbol::RBrace, "expected `}` after function body")?;
        Ok(body)
    }

    fn parse_stmt(&mut self) -> (r: Result<Stmt, Diagnostic>)
        requires
            old(self).wf(),
        ensures
            final(self).advanced_from(old(self)),
            r is Ok ==> final(self).spec_pos() > old(self).spec_pos(),
            stmt_parsed(r, final(self).spec_pos()) == grammar::parse_stmt(old(self).toks(), old(self).spec_pos()),
        decreases old(self).tokens@.len() - old(self).pos, 7nat,
    {
        if self.consume_keyword(Keyword::Let).is_some() {
            return self.parse_let_rest();
        }
        if self.consume_keyword(Keyword::If).is_some() {
            return self.parse_if_rest();
        }
        if self.consume_keyword(Keyword::While).is_some() {
            return self.parse_while_rest();
        }
        if self.consume_keyword(Keyword::Match).is_some() {
            return self.parse_match_rest();
        }
        if self.consume_keyword(Keyword::Return).is_some() {
            return self.parse_return_rest();
        }
        self.parse_expr_stmt()
    }

    /// The rest of a `let` statement after the keyword.
    fn parse_let_rest(&mut self) -> (r: Result<Stmt, Diagnostic>)
        requires
            old(self).wf(),
        ensures
            final(self).advanced_from(old(self)),
            r is Ok ==> final(self).spec_pos() > old(self).spec_pos(),
            stmt_parsed(r, final(self).spec_pos()) == grammar::let_rest(old(self).toks(), old(self).spec_pos()),
    {
        let mutable = self.consume_keyword(Keyword::Mut).is_some();
        let (name, name_span) = self.expect_ident_span("expected local name")?;
        let ty = if self.consume_symbol(Symbol::Colon).is_some() {
            let (ty, _span) = self.parse_type_annotation("expected local type")?;
            Some(ty)
        } else {
            None
        };
        self.expect_symbol(Symbol::Eq, "expected `=` in let statement")?;
        let value = self.parse_expr()?;
        self.expect_symbol(Symbol::Semicolon, "expected `;` after let statement")?;
        Ok(Stmt::Let { mutable, name, name_span, ty, value })
    }

    /// The rest of an `if` statement after the keyword.
    fn parse_if_rest(&mut self) -> (r: Result<Stmt, Diagnostic>)
        requires
            old(self).wf(),
        ensures
            final(self).advanced_from(old(self)),
            r is Ok ==> final(self).spec_pos() > old(self).spec_pos(),
            stmt_parsed(r, final(self).spec_pos()) == grammar::if_rest(old(self).toks(), old(self).spec_pos()),
        decreases old(self).tokens@.len() - old(self).pos, 7nat,
    {
        let condition = self.parse_expr()?;
        self.expect_symbol(Symbol::LBrace, "expected `{` after if condition")?;
        let then_body = self.parse_block_body()?;
        let else_body = self.parse_else_part(Ghost(old(self).spec_pos()))?;
        Ok(Stmt::If { condition, then_body, else_body })
    }

    /// What follows the `then` block of an `if` whose condition started at
    /// `start`; `else if` is an `else` block holding a single `if`.
    fn parse_else_part(&mut self, Ghost(start): Ghost<int>) -> (r: Result<Vec<Stmt>, Diagnostic>)
        requires
            old(self).wf(),
            start < old(self).spec_pos(),
        ensures
            final(self).advanced_from(old(self)),
            stmts_parsed(r, final(self).spec_pos()) == grammar::else_part(old(self).toks(), start, old(self).spec_pos()),
        decreases old(self).tokens@.len() - old(self).pos, 7nat,
    {
        if self.consume_keyword(Keyword::Else).is_some() {
            if self.check_keyword(Keyword::If) {
                let nested = self.parse_stmt()?;
                let mut v: Vec<Stmt> = Vec::new();
                v.push(nested);
                assert(v@.drop_last() =~= Seq::<Stmt>::empty());
                assert(stmts_model(v@.drop_last()) =~= Seq::<StmtModel>::empty());
                assert(stmts_model(v@) =~= seq![grammar::stmt_model(nested)]);
                Ok(v)
            } else {
                self.expect_symbol(Symbol::LBrace, "expected `{` after else")?;
                self.parse_block_body()
            }
        } else {
            let v: Vec<Stmt> = Vec::new();
            assert(stmts_model(v@) =~= Seq::<StmtModel>::empty());
            Ok(v)
        }
    }

    /// The rest of a `while` statement after the keyword.
    fn parse_while_rest(&mut self) -> (r: Result<Stmt, Diagnostic>)
        requires
            old(self).wf(),
        ensures
            final(self).advanced_from(old(self)),
            r is Ok ==> final(self).spec_pos() > old(self).spec_pos(),
            stmt_parsed(r, final(self).spec_pos()) == grammar::while_rest(old(self).toks(), old(self).spec_pos()),
        decreases old(self).tokens@.len() - old(self).pos, 7nat,
    {
        let condition = self.parse_expr()?;
        self.expect_symbol(Symbol::LBrace, "expected `{` after while condition")?;
        let body = self.parse_block_body()?;
        Ok(Stmt::While { condition, body })
    }

    /// The rest of a `match` statement after the keyword.
    fn parse_match_rest(&mut self) -> (r: Result<Stmt, Diagnostic>)
        requires
            old(self).wf(),
        ensures
            final(self).advanced_from(old(self)),
            r is Ok ==> final(self).spec_pos() > old(self).spec_pos(),
            stmt_parsed(r, final(self).spec_pos()) == grammar::match_rest(old(self).toks(), old(self).spec_pos()),
        decreases old(self).tokens@.len() - old(self).pos, 7nat,
    {
        let ghost t = self.toks();
        let value = self.parse_expr()?;
        self.expect_symbol(Symbol::LBrace, "expected `{` after match value")?;
        let ghost open = self.spec_pos();
        let mut arms: Vec<MatchArm> = Vec::new();
        assert(arms_model(arms@) =~= Seq::<(PatternModel, Seq<StmtModel>)>::empty());
        while !self.check_symbol(Symbol::RBrace) && !self.at_eof()
            invariant
                self.advanced_from(old(self)),
                self.spec_pos() > old(self).spec_pos(),
                self.toks() == t,
                grammar::arms_rest(t, self.spec_pos(), arms_model(arms@)) == grammar::arms_rest(
                    t,
                    open,
                    Seq::empty(),
                ),
                grammar::arms_rest(t, open, Seq::empty()) matches Err(e) ==> grammar::match_rest(
                    t,
                    old(self).spec_pos(),
                ) == Err::<(StmtModel, int), _>(e),
            decreases self.tokens@.len() - self.pos,
        {
            let ghost acc = arms@;
            let arm = self.parse_match_arm()?;
            arms.push(arm);
            assert(arms@.drop_last() == acc);
        }
        self.expect_symbol(Symbol::RBrace, "expected `}` after match arms")?;
        Ok(Stmt::Match { value, arms })
    }

    /// The rest of a `return` statement after the keyword.
    fn parse_return_rest(&mut self) -> (r: Result<Stmt, Diagnostic>)
        requires
            old(self).wf(),
        ensures
            final(self).advanced_from(old(self)),
            r is Ok ==> final(self).spec_pos() > old(self).spec_pos(),
            stmt_parsed(r, final(self).spec_pos()) == grammar::return_rest(old(self).toks(), old(self).spec_pos()),
    {
        if self.consume_symbol(Symbol::Semicolon).is_some() {
            return Ok(Stmt::Return(None));
        }
        let value = self.parse_expr()?;
        self.expect_symbol(Symbol::Semicolon, "expected `;` after return statement")?;
        Ok(Stmt::Return(Some(value)))
    }

    /// An expression statement, or an assignment when `=` follows a name.
    #[verifier::rlimit(60)]
    fn parse_expr_stmt(&mut self) -> (r: Result<Stmt, Diagnostic>)
        requires
            old(self).wf(),
        ensures
            final(self).advanced_from(old(self)),
            r is Ok ==> final(self).spec_pos() > old(self).spec_pos(),
            stmt_parsed(r, final(self).spec_pos()) == grammar::expr_stmt(old(self).toks(), old(self).spec_pos()),
    {
        let expr = self.parse_expr()?;
        if self.consume_symbol(Symbol::Eq).is_some() {
            let (name, name_span) = match expr {
                Expr::Name { name, span } => (name, span),
                _ => {
                    return Err(self.error_here("PARSE_EXPECTED_ASSIGN_TARGET", "expected a local name before `=`"));
                },
            };
            let value = self.parse_expr()?;
            self.expect_symbol(Symbol::Semicolon, "expected `;` after assignment")?;
            return Ok(Stmt::Assign { name, name_span, value });
        }
        let compound = if self.consume_symbol(Symbol::PlusEq).is_some() {
            Some(BinaryOp::Add)
        } else if self.consume_symbol(Symbol::MinusEq).is_some() {
            Some(BinaryOp::Sub)
        } else if self.consume_symbol(Symbol::StarEq).is_some() {
            Some(BinaryOp::Mul)
        } else if self.consume_symbol(Symbol::SlashEq).is_some() {
            Some(BinaryOp::Div)
        } else {
            None
        };
        if let Some(op) = compound {
            let (name, name_span) = match expr {
                Expr::Name { name, span } => (name, span),
                _ => {
                    return Err(self.error_here("PARSE_EXPECTED_ASSIGN_TARGET", "expected a local name before `=`"));
                },
            };
            let rhs = self.parse_expr()?;
            self.expect_symbol(Symbol::Semicolon, "expected `;` after assignment")?;
            let end = rhs.span().end;
            proof {
                lemma_span_of_model(rhs);
            }
            let target = Expr::Name { name: name.clone(), span: name_span };
            let value = Expr::Binary {
                op,
                left: Box::new(target),
                right: Box::new(rhs),
                span: Span::new(name_span.start, end),
            };
            return Ok(Stmt::Assign { name, name_span, value });
        }
        self.expect_symbol(Symbol::Semicolon, "expected `;` after expression statement")?;
        Ok(Stmt::Expr(expr))
    }

    fn parse_match_arm(&mut self) -> (r: Result<MatchArm, Diagnostic>)
        requires
            old(self).wf(),
        ensures
            final(self).advanced_from(old(self)),
            r is Ok ==> final(self).spec_pos() > old(self).spec_pos(),
            arm_parsed(r, final(self).spec_pos()) == grammar::parse_arm(old(self).toks(), old(self).spec_pos()),
        decreases old(self).tokens@.len() - old(self).pos, 6nat,
    {
        let pattern = self.parse_pattern()?;
        self.expect_symbol(Symbol::Arrow, "expected `->` after match pattern")?;
        self.expect_symbol(Symbol::LBrace, "expected `{` after match arm")?;
        let body = self.parse_block_body()?;
        self.consume_symbol(Symbol::Comma);
        Ok(MatchArm { pattern, body })
    }

    fn parse_pattern(&mut self) -> (r: Result<Pattern, Diagnostic>)
        requires
            old(self).wf(),
        ensures
            final(self).advanced_from(old(self)),
            r is Ok <==> final(self).spec_pos() == old(self).spec_pos() + 1,
            r is Err ==> final(self).spec_pos() == old(self).spec_pos(),
            pattern_parsed(r, final(self).spec_pos()) == grammar::parse_pattern(old(self).toks(), old(self).spec_pos()),
    {
        let r = match &self.tokens[self.pos].kind {
            TokenKind::Ident(name) => {
                if crate::text::str_equal(name.as_str(), "_") {
                    Ok(Pattern::Wildcard)
                } else {
                    Ok(Pattern::Name(name.clone()))
                }
            },
            TokenKind::Int(value) => Ok(Pattern::Int(value.clone())),
            TokenKind::String(value) => Ok(Pattern::String(value.clone())),
            TokenKind::Keyword(Keyword::True) => Ok(Pattern::Bool(true)),
            TokenKind::Keyword(Keyword::False) => Ok(Pattern::Bool(false)),
            _ => Err(self.error_here("PARSE_EXPECTED_PATTERN", "expected match pattern")),
        };
        if r.is_ok() {
            self.advance();
        }
        r
    }

    fn parse_expr(&mut self) -> (r: Result<Expr, Diagnostic>)
        requires
            old(self).wf(),
        ensures
            final(self).advanced_from(old(self)),
            r is Ok ==> final(self).spec_pos() > old(self).spec_pos(),
            expr_parsed(r, final(self).spec_pos()) == grammar::parse_expr(old(self).toks(), old(self).spec_pos()),
        decreases old(self).tokens@.len() - old(self).pos, 9nat,
    {
        self.parse_logical_or()
    }

    /// `a || b || c`: left-associative disjunctions of conjunctions.
    fn parse_logical_or(&mut self) -> (r: Result<Expr, Diagnostic>)
        requires
            old(self).wf(),
        ensures
            final(self).advanced_from(old(self)),
            r is Ok ==> final(self).spec_pos() > old(self).spec_pos(),
            expr_parsed(r, final(self).spec_pos()) == grammar::parse_or(old(self).toks(), old(self).spec_pos()),
        decreases old(self).tokens@.len() - old(self).pos, 8nat,
    {
        let ghost t = self.toks();
        let mut expr = self.parse_logical_and()?;
        loop
            invariant
                self.advanced_from(old(self)),
                self.spec_pos() > old(self).spec_pos(),
                self.toks() == t,
                grammar::or_rest(t, self.spec_pos(), expr_model(expr)) == grammar::parse_or(t, old(self).spec_pos()),
            ensures
                grammar::parse_or(t, old(self).spec_pos()) == Ok::<_, (SpecDiagnostic, int)>((expr_model(expr), self.spec_pos())),
            decreases self.tokens@.len() - self.pos,
        {
            let ghost acc = expr_model(expr);
            if self.consume_symbol(Symbol::OrOr).is_none() {
                break;
            }
            let right = self.parse_logical_and()?;
            let span = Span::new(expr.span().start, right.span().end);
            proof {
                lemma_span_of_model(expr);
                lemma_span_of_model(right);
            }
            expr = Expr::Binary { op: BinaryOp::Or, left: Box::new(expr), right: Box::new(right), span };
            assert(expr_model(expr) == grammar::binary(BinaryOp::Or, acc, expr_model(right)));
        }
        Ok(expr)
    }

    /// `a && b && c`: left-associative conjunctions of comparisons.
    fn parse_logical_and(&mut self) -> (r: Result<Expr, Diagnostic>)
        requires
            old(self).wf(),
        ensures
            final(self).advanced_from(old(self)),
            r is Ok ==> final(self).spec_pos() > old(self).spec_pos(),
            expr_parsed(r, final(self).spec_pos()) == grammar::parse_and(old(self).toks(), old(self).spec_pos()),
        decreases old(self).tokens@.len() - old(self).pos, 7nat,
    {
        let ghost t = self.toks();
        let mut expr = self.parse_comparison()?;
        loop
            invariant
                self.advanced_from(old(self)),
                self.spec_pos() > old(self).spec_pos(),
                self.toks() == t,
                grammar::and_rest(t, self.spec_pos(), expr_model(expr)) == grammar::parse_and(t, old(self).spec_pos()),
            ensures
                grammar::parse_and(t, old(self).spec_pos()) == Ok::<_, (SpecDiagnostic, int)>((expr_model(expr), self.spec_pos())),
            decreases self.tokens@.len() - self.pos,
        {
            let ghost acc = expr_model(expr);
            if self.consume_symbol(Symbol::AndAnd).is_none() {
                break;
            }
            let right = self.parse_comparison()?;
            let span = Span::new(expr.span().start, right.span().end);
            proof {
                lemma_span_of_model(expr);
                lemma_span_of_model(right);
            }
            expr = Expr::Binary { op: BinaryOp::And, left: Box::new(expr), right: Box::new(right), span };
            assert(expr_model(expr) == grammar::binary(BinaryOp::And, acc, expr_model(right)));
        }
        Ok(expr)
    }

    /// `a < b == c`: left-associative comparisons of sums.
    fn parse_comparison(&mut self) -> (r: Result<Expr, Diagnostic>)
        requires
            old(self).wf(),
        ensures
            final(self).advanced_from(old(self)),
            r is Ok ==> final(self).spec_pos() > old(self).spec_pos(),
            expr_parsed(r, final(self).spec_pos()) == grammar::parse_comparison(old(self).toks(), old(self).spec_pos()),
        decreases old(self).tokens@.len() - old(self).pos, 6nat,
    {
        let ghost t = self.toks();
        let mut expr = self.parse_additive()?;
        loop
            invariant
                self.advanced_from(old(self)),
                self.spec_pos() > old(self).spec_pos(),
                self.toks() == t,
                grammar::comparison_rest(t, self.spec_pos(), expr_model(expr)) == grammar::parse_comparison(
                    t,
                    old(self).spec_pos(),
                ),
            ensures
                grammar::parse_comparison(t, old(self).spec_pos()) == Ok::<_, (SpecDiagnostic, int)>((expr_model(expr), self.spec_pos())),
            decreases self.tokens@.len() - self.pos,
        {
            let ghost acc = expr_model(expr);
            let op = if self.consume_symbol(Symbol::EqEq).is_some() {
                BinaryOp::Eq
            } else if self.consume_symbol(Symbol::BangEq).is_some() {
                BinaryOp::NotEq
            } else if self.consume_symbol(Symbol::Lte).is_some() {
                BinaryOp::Lte
            } else if self.consume_symbol(Symbol::Lt).is_some() {
                BinaryOp::Lt
            } else if self.consume_symbol(Symbol::Gte).is_some() {
                BinaryOp::Gte
            } else if self.consume_symbol(Symbol::Gt).is_some() {
                BinaryOp::Gt
            } else {
                break;
            };
            let right = self.parse_additive()?;
            let span = Span::new(expr.span().start, right.span().end);
            proof {
                lemma_span_of_model(expr);
                lemma_span_of_model(right);
            }
            expr = Expr::Binary { op, left: Box::new(expr), right: Box::new(right), span };
            assert(expr_model(expr) == grammar::binary(op, acc, expr_model(right)));
        }
        Ok(expr)
    }

    /// `a + b - c`: left-associative sums of products.
    fn parse_additive(&mut self) -> (r: Result<Expr, Diagnostic>)
        requires
            old(self).wf(),
        ensures
            final(self).advanced_from(old(self)),
            r is Ok ==> final(self).spec_pos() > old(self).spec_pos(),
            expr_parsed(r, final(self).spec_pos()) == grammar::parse_additive(old(self).toks(), old(self).spec_pos()),
        decreases old(self).tokens@.len() - old(self).pos, 5nat,
    {
        let ghost t = self.toks();
        let mut expr = self.parse_multiplicative()?;
        loop
            invariant
                self.advanced_from(old(self)),
                self.spec_pos() > old(self).spec_pos(),
                self.toks() == t,
                grammar::additive_rest(t, self.spec_pos(), expr_model(expr)) == grammar::parse_additive(
                    t,
                    old(self).spec_pos(),
                ),
            ensures
                grammar::parse_additive(t, old(self).spec_pos()) == Ok::<_, (SpecDiagnostic, int)>((expr_model(expr), self.spec_pos())),
            decreases self.tokens@.len() - self.pos,
        {
            let ghost acc = expr_model(expr);
            let op = if self.consume_symbol(Symbol::Plus).is_some() {
                BinaryOp::Add
            } else if self.consume_symbol(Symbol::Minus).is_some() {
                BinaryOp::Sub
            } else {
                break;
            };
            let right = self.parse_multiplicative()?;
            let span = Span::new(expr.span().start, right.span().end);
            proof {
                lemma_span_of_model(expr);
                lemma_span_of_model(right);
            }
            expr = Expr::Binary { op, left: Box::new(expr), right: Box::new(right), span };
            assert(expr_model(expr) == grammar::binary(op, acc, expr_model(right)));
        }
        Ok(expr)
    }

    /// `a * b / c`: left-associative products of calls and primaries.
    fn parse_multiplicative(&mut self) -> (r: Result<Expr, Diagnostic>)
        requires
            old(self).wf(),
        ensures
            final(self).advanced_from(old(self)),
            r is Ok ==> final(self).spec_pos() > old(self).spec_pos(),
            expr_parsed(r, final(self).spec_pos()) == grammar::parse_multiplicative(
                old(self).toks(),
                old(self).spec_pos(),
            ),
        decreases old(self).tokens@.len() - old(self).pos, 4nat,
    {
        let ghost t = self.toks();
        let mut expr = self.parse_unary()?;
        loop
            invariant
                self.advanced_from(old(self)),
                self.spec_pos() > old(self).spec_pos(),
                self.toks() == t,
                grammar::multiplicative_rest(t, self.spec_pos(), expr_model(expr))
                    == grammar::parse_multiplicative(t, old(self).spec_pos()),
            ensures
                grammar::parse_multiplicative(t, old(self).spec_pos()) == Ok::<_, (SpecDiagnostic, int)>((expr_model(expr), self.spec_pos())),
            decreases self.tokens@.len() - self.pos,
        {
            let ghost acc = expr_model(expr);
            let op = if self.consume_symbol(Symbol::Star).is_some() {
                BinaryOp::Mul
            } else if self.consume_symbol(Symbol::Slash).is_some() {
                BinaryOp::Div
            } else {
                break;
            };
            let right = self.parse_unary()?;
            let span = Span::new(expr.span().start, right.span().end);
            proof {
                lemma_span_of_model(expr);
                lemma_span_of_model(right);
            }
            expr = Expr::Binary { op, left: Box::new(expr), right: Box::new(right), span };
            assert(expr_model(expr) == grammar::binary(op, acc, expr_model(right)));
        }
        Ok(expr)
    }

    /// `!e` and `-e`, or a call or primary expression.
    fn parse_unary(&mut self) -> (r: Result<Expr, Diagnostic>)
        requires
            old(self).wf(),
        ensures
            final(self).advanced_from(old(self)),
            r is Ok ==> final(self).spec_pos() > old(self).spec_pos(),
            expr_parsed(r, final(self).spec_pos()) == grammar::parse_unary(old(self).toks(), old(self).spec_pos()),
        decreases old(self).tokens@.len() - old(self).pos, 3nat,
    {
        let op = if self.check_symbol(Symbol::Bang) {
            UnaryOp::Not
        } else if self.check_symbol(Symbol::Minus) {
            UnaryOp::Neg
        } else {
            return self.parse_call();
        };
        let start = self.peek_span().start;
        self.advance();
        let operand = self.parse_unary()?;
        let end = operand.span().end;
        proof {
            lemma_span_of_model(operand);
        }
        Ok(Expr::Unary { op, expr: Box::new(operand), span: Span::new(start, end) })
    }

    /// A primary expression followed by its postfixes: call arguments after a
    /// name path, `.field` or `.0`, `.m(args)` on a value that is not a name
    /// path (the call `m(value, args)`), and `[index]`.
    fn parse_call(&mut self) -> (r: Result<Expr, Diagnostic>)
        requires
            old(self).wf(),
        ensures
            final(self).advanced_from(old(self)),
            r is Ok ==> final(self).spec_pos() > old(self).spec_pos(),
            expr_parsed(r, final(self).spec_pos()) == grammar::parse_call(old(self).toks(), old(self).spec_pos()),
        decreases old(self).tokens@.len() - old(self).pos, 2nat,
    {
        let ghost t = self.toks();
        let mut expr = self.parse_primary()?;
        loop
            invariant
                self.advanced_from(old(self)),
                self.spec_pos() > old(self).spec_pos(),
                self.toks() == t,
                grammar::postfix_rest(t, self.spec_pos(), expr_model(expr)) == grammar::parse_call(
                    t,
                    old(self).spec_pos(),
                ),
            ensures
                grammar::parse_call(t, old(self).spec_pos()) == Ok::<_, (SpecDiagnostic, int)>(
                    (expr_model(expr), self.spec_pos()),
                ),
            decreases self.tokens@.len() - self.pos,
        {
            if self.check_symbol(Symbol::LParen) {
                expr = self.parse_call_postfix(expr)?;
            } else if self.check_symbol(Symbol::Dot) {
                expr = self.parse_dot_postfix(expr)?;
            } else if self.check_symbol(Symbol::LBracket) {
                expr = self.parse_index_postfix(expr)?;
            } else {
                break;
            }
        }
        Ok(expr)
    }

    /// Call arguments after `acc`, at `(`; `acc` must be a name path.
    #[verifier::rlimit(80)]
    fn parse_call_postfix(&mut self, acc: Expr) -> (r: Result<Expr, Diagnostic>)
        requires
            old(self).wf(),
            old(self).current() == SpecTokenKind::Symbol(Symbol::LParen),
        ensures
            final(self).advanced_from(old(self)),
            r is Ok ==> final(self).spec_pos() > old(self).spec_pos(),
            expr_parsed(r, final(self).spec_pos()) == grammar::call_postfix(
                old(self).toks(),
                old(self).spec_pos(),
                expr_model(acc),
            ),
        decreases old(self).tokens@.len() - old(self).pos, 0nat,
    {
        self.advance();
        let (callee, callee_span) = match expr_path(&acc) {
            Some(path) => path,
            None => {
                return Err(self.error_here(
                    "PARSE_EXPECTED_CALL_TARGET",
                    "expected function name before call arguments",
                ));
            },
        };
        let args = self.parse_call_args()?;
        let end = self.previous_span().end;
        Ok(Expr::Call { callee, callee_span, args, span: Span::new(callee_span.start, end) })
    }

    /// `.field`, `.0` or `.m(args)` after `acc`, at `.`; a method call only
    /// where `acc` is not a name path.
    #[verifier::rlimit(80)]
    fn parse_dot_postfix(&mut self, acc: Expr) -> (r: Result<Expr, Diagnostic>)
        requires
            old(self).wf(),
            old(self).current() == SpecTokenKind::Symbol(Symbol::Dot),
        ensures
            final(self).advanced_from(old(self)),
            r is Ok ==> final(self).spec_pos() > old(self).spec_pos(),
            expr_parsed(r, final(self).spec_pos()) == grammar::dot_postfix(
                old(self).toks(),
                old(self).spec_pos(),
                expr_model(acc),
            ),
        decreases old(self).tokens@.len() - old(self).pos, 0nat,
    {
        let ghost model = expr_model(acc);
        let start = acc.span().start;
        proof {
            lemma_span_of_model(acc);
        }
        self.advance();
        let numeric = match &self.tokens[self.pos].kind {
            TokenKind::Int(n) => Some(n.clone()),
            _ => None,
        };
        if let Some(field) = numeric {
            let field_span = self.peek_span();
            self.advance();
            return Ok(Expr::FieldAccess { base: Box::new(acc), field, field_span, span: Span::new(start, field_span.end) });
        }
        let (field, field_span) = self.expect_ident_span("expected field name after `.`")?;
        let on_path = expr_path(&acc).is_some();
        if self.check_symbol(Symbol::LParen) && !on_path {
            self.advance();
            let mut rest = self.parse_call_args()?;
            let end = self.previous_span().end;
            let ghost rest_view = rest@;
            let mut args: Vec<Expr> = Vec::new();
            args.push(acc);
            args.append(&mut rest);
            proof {
                assert(args@ =~= seq![acc] + rest_view);
                lemma_exprs_model_concat(seq![acc], rest_view);
                reveal_with_fuel(grammar::exprs_model, 2);
                assert(seq![acc].drop_last() =~= Seq::<Expr>::empty());
                assert(exprs_model(seq![acc]) =~= seq![model]);
            }
            Ok(Expr::Call { callee: field, callee_span: field_span, args, span: Span::new(start, end) })
        } else {
            Ok(Expr::FieldAccess { base: Box::new(acc), field, field_span, span: Span::new(start, field_span.end) })
        }
    }

    /// `[index]` after `acc`, at `[`.
    #[verifier::rlimit(80)]
    fn parse_index_postfix(&mut self, acc: Expr) -> (r: Result<Expr, Diagnostic>)
        requires
            old(self).wf(),
            old(self).current() == SpecTokenKind::Symbol(Symbol::LBracket),
        ensures
            final(self).advanced_from(old(self)),
            r is Ok ==> final(self).spec_pos() > old(self).spec_pos(),
            expr_parsed(r, final(self).spec_pos()) == grammar::index_postfix(
                old(self).toks(),
                old(self).spec_pos(),
                expr_model(acc),
            ),
        decreases old(self).tokens@.len() - old(self).pos, 0nat,
    {
        let start = acc.span().start;
        proof {
            lemma_span_of_model(acc);
        }
        self.advance();
        let index = self.parse_expr()?;
        self.expect_symbol(Symbol::RBracket, "expected `]` after index expression")?;
        let end = self.previous_span().end;
        Ok(Expr::Index { base: Box::new(acc), index: Box::new(index), span: Span::new(start, end) })
    }

    /// Arguments after `(`, through the closing `)`.
    fn parse_call_args(&mut self) -> (r: Result<Vec<Expr>, Diagnostic>)
        requires
            old(self).wf(),
        ensures
            final(self).advanced_from(old(self)),
            r is Ok ==> final(self).spec_pos() > old(self).spec_pos(),
            exprs_parsed(r, final(self).spec_pos()) == grammar::parse_call_args(old(self).toks(), old(self).spec_pos()),
        decreases old(self).tokens@.len() - old(self).pos, 10nat,
    {
        let ghost t = self.toks();
        let mut args: Vec<Expr> = Vec::new();
        if self.consume_symbol(Symbol::RParen).is_some() {
            return Ok(args);
        }
        loop
            invariant_except_break
                grammar::call_args_rest(t, self.spec_pos(), exprs_model(args@)) == grammar::parse_call_args(
                    t,
                    old(self).spec_pos(),
                ),
            invariant
                self.advanced_from(old(self)),
                self.toks() == t,
            ensures
                self.spec_pos() > old(self).spec_pos(),
                grammar::parse_call_args(t, old(self).spec_pos()) == (match grammar::expect_symbol(
                    t,
                    self.spec_pos(),
                    Symbol::RParen,
                    "expected `)` after call arguments"@,
                ) {
                    Ok(after) => Ok((exprs_model(args@), after)),
                    Err(e) => Err(e),
                }),
            decreases self.tokens@.len() - self.pos,
        {
            let ghost acc = args@;
            let arg = self.parse_expr()?;
            args.push(arg);
            assert(args@.drop_last() == acc);
            if self.consume_symbol(Symbol::Comma).is_none() {
                break;
            }
        }
        self.expect_symbol(Symbol::RParen, "expected `)` after call arguments")?;
        Ok(args)
    }

    fn parse_primary(&mut self) -> (r: Result<Expr, Diagnostic>)
        requires
            old(self).wf(),
        ensures
            final(self).advanced_from(old(self)),
            r is Ok ==> final(self).spec_pos() > old(self).spec_pos(),
            expr_parsed(r, final(self).spec_pos()) == grammar::parse_primary(old(self).toks(), old(self).spec_pos()),
        decreases old(self).tokens@.len() - old(self).pos, 1nat,
    {
        let span = self.peek_span();
        match &self.tokens[self.pos].kind {
            TokenKind::Ident(name) => {
                let name = name.clone();
                self.advance();
                Ok(Expr::Name { name, span })
            },
            TokenKind::Int(value) => {
                let value = value.clone();
                self.advance();
                Ok(Expr::Int { value, span })
            },
            TokenKind::String(value) => {
                let value = value.clone();
                self.advance();
                Ok(Expr::String { value, span })
            },
            TokenKind::Keyword(Keyword::True) => {
                self.advance();
                Ok(Expr::Bool { value: true, span })
            },
            TokenKind::Keyword(Keyword::False) => {
                self.advance();
                Ok(Expr::Bool { value: false, span })
            },
            TokenKind::Symbol(Symbol::LParen) => {
                self.advance();
                let inner = self.parse_expr()?;
                self.expect_symbol(Symbol::RParen, "expected `)` after expression")?;
                Ok(inner)
            },
            TokenKind::Symbol(Symbol::LBracket) => {
                self.advance();
                let elements = self.parse_array_elements()?;
                let end = self.previous_span().end;
                Ok(Expr::ArrayLiteral { elements, span: Span::new(span.start, end) })
            },
            _ => Err(self.error_here("PARSE_EXPECTED_EXPR", "expected expression")),
        }
    }

    /// The elements of an array literal, after its `[`, through the closing
    /// `]`; a trailing comma is allowed.
    fn parse_array_elements(&mut self) -> (r: Result<Vec<Expr>, Diagnostic>)
        requires
            old(self).wf(),
        ensures
            final(self).advanced_from(old(self)),
            r is Ok ==> final(self).spec_pos() > old(self).spec_pos(),
            exprs_parsed(r, final(self).spec_pos()) == grammar::array_elements(old(self).toks(), old(self).spec_pos()),
        decreases old(self).tokens@.len() - old(self).pos, 12nat,
    {
        if self.consume_symbol(Symbol::RBracket).is_some() {
            return Ok(Vec::new());
        }
        let elements: Vec<Expr> = Vec::new();
        proof {
            assert(exprs_model(elements@) =~= Seq::<grammar::ExprModel>::empty());
        }
        self.parse_elements_rest(elements)
    }

    /// The elements from here on, after the elements `acc` and their commas.
    #[verifier::rlimit(80)]
    fn parse_elements_rest(&mut self, acc: Vec<Expr>) -> (r: Result<Vec<Expr>, Diagnostic>)
        requires
            old(self).wf(),
        ensures
            final(self).advanced_from(old(self)),
            r is Ok ==> final(self).spec_pos() > old(self).spec_pos(),
            exprs_parsed(r, final(self).spec_pos()) == grammar::elements_rest(
                old(self).toks(),
                old(self).spec_pos(),
                exprs_model(acc@),
            ),
        decreases old(self).tokens@.len() - old(self).pos, 11nat,
    {
        let mut elements = acc;
        let element = self.parse_expr()?;
        let ghost prev = elements@;
        elements.push(element);
        assert(elements@.drop_last() == prev);
        if self.consume_symbol(Symbol::Comma).is_none() {
            self.expect_symbol(Symbol::RBracket, "expected `]` after array literal")?;
            return Ok(elements);
        }
        if self.consume_symbol(Symbol::RBracket).is_some() {
            return Ok(elements);
        }
        self.parse_elements_rest(elements)
    }

    /// Parses a type annotation into its canonical text: a name, a generic
    /// instance `Name<A, B>`, a tuple `(A, B)` (a single parenthesized type is
    /// just that type), a function type `fn(A) -> R`, or a pointer `*T`.
    #[verifier::rlimit(50)]
    fn parse_type_annotation(&mut self, message: &'static str) -> (r: Result<(String, Span), Diagnostic>)
        requires
            old(self).wf(),
        ensures
            final(self).advanced_from(old(self)),
            r is Ok ==> final(self).spec_pos() > old(self).spec_pos(),
            r matches Ok((_, span)) ==> span.start == old(self).spec_tokens()[old(self).spec_pos()].span.start,
            text_parsed(r, final(self).spec_pos()) == grammar::parse_type(old(self).toks(), old(self).spec_pos(), message@),
        decreases old(self).tokens@.len() - old(self).pos,
    {
        let ghost t = self.toks();
        let start = self.peek_span().start;
        if self.consume_symbol(Symbol::Star).is_some() {
            let (inner, inner_span) = self.parse_type_annotation("expected pointee type after `*`")?;
            let mut text = String::new();
            push_str(&mut text, "*");
            push_str(&mut text, inner.as_str());
            assert(text@ =~= "*"@ + inner@);
            return Ok((text, Span::new(start, inner_span.end)));
        }
        if self.consume_keyword(Keyword::Fn).is_some() {
            self.expect_symbol(Symbol::LParen, "expected `(` after `fn` in function type")?;
            let ghost open = self.spec_pos();
            let mut params: Vec<String> = Vec::new();
            assert(strings_view(params@) =~= Seq::<Seq<char>>::empty());
            if !self.check_symbol(Symbol::RParen) {
                loop
                    invariant_except_break
                        grammar::type_list(t, self.spec_pos(), strings_view(params@), "expected parameter type"@)
                            == grammar::type_list(t, open, Seq::empty(), "expected parameter type"@),
                    invariant
                        self.advanced_from(old(self)),
                        self.spec_pos() > old(self).spec_pos(),
                        self.toks() == t,
                        grammar::type_list(t, open, Seq::empty(), "expected parameter type"@) matches Err(e)
                            ==> grammar::parse_type(t, old(self).spec_pos(), message@) == Err::<((Seq<char>, Span), int), _>(e),
                    ensures
                        grammar::type_list(t, open, Seq::empty(), "expected parameter type"@) == Ok::<_, (SpecDiagnostic, int)>((strings_view(params@), self.spec_pos())),
                    decreases self.tokens@.len() - self.pos,
                {
                    let ghost acc = params@;
                    let (ty, _span) = self.parse_type_annotation("expected parameter type")?;
                    params.push(ty);
                    assert(strings_view(params@) =~= strings_view(acc).push(ty@));
                    if self.consume_symbol(Symbol::Comma).is_none() {
                        break;
                    }
                }
            }
            self.expect_symbol(Symbol::RParen, "expected `)` after function-type parameters")?;
            self.expect_symbol(Symbol::Arrow, "expected `->` in function type")?;
            let (ret, _span) = self.parse_type_annotation("expected function return type")?;
            let end = self.previous_span().end;
            let mut text = String::new();
            push_str(&mut text, "fn(");
            push_joined(&mut text, &params, ", ");
            push_str(&mut text, ") -> ");
            push_str(&mut text, ret.as_str());
            assert(text@ =~= "fn("@ + join_texts(strings_view(params@), ", "@) + ") -> "@ + ret@);
            return Ok((text, Span::new(start, end)));
        }
        if self.consume_symbol(Symbol::LParen).is_some() {
            let ghost open = self.spec_pos();
            let mut parts: Vec<String> = Vec::new();
            assert(strings_view(parts@) =~= Seq::<Seq<char>>::empty());
            let mut saw_comma = false;
            if !self.check_symbol(Symbol::RParen) {
                loop
                    invariant_except_break
                        grammar::tuple_list(t, self.spec_pos(), strings_view(parts@), saw_comma)
                            == grammar::tuple_list(t, open, Seq::empty(), false),
                    invariant
                        self.advanced_from(old(self)),
                        self.spec_pos() > old(self).spec_pos(),
                        self.toks() == t,
                        grammar::tuple_list(t, open, Seq::empty(), false) matches Err(e)
                            ==> grammar::parse_type(t, old(self).spec_pos(), message@) == Err::<((Seq<char>, Span), int), _>(e),
                    ensures
                        grammar::tuple_list(t, open, Seq::empty(), false) == Ok::<_, (SpecDiagnostic, int)>(((strings_view(parts@), saw_comma), self.spec_pos())),
                    decreases self.tokens@.len() - self.pos,
                {
                    let ghost acc = parts@;
                    let (ty, _span) = self.parse_type_annotation("expected type")?;
                    parts.push(ty);
                    assert(strings_view(parts@) =~= strings_view(acc).push(ty@));
                    if self.consume_symbol(Symbol::Comma).is_some() {
                        saw_comma = true;
                        if self.check_symbol(Symbol::RParen) {
                            break;
                        }
                    } else {
                        break;
                    }
                }
            }
            self.expect_symbol(Symbol::RParen, "expected `)` after tuple type")?;
            let end = self.previous_span().end;
            let span = Span::new(start, end);
            if parts.len() == 1 && !saw_comma {
                let only = parts.pop().unwrap();
                return Ok((only, span));
            }
            let mut text = String::new();
            push_str(&mut text, "(");
            push_joined(&mut text, &parts, ", ");
            push_str(&mut text, ")");
            assert(text@ =~= "("@ + join_texts(strings_view(parts@), ", "@) + ")"@);
            return Ok((text, span));
        }
        let (name, span) = self.expect_ident_span(message)?;
        if self.consume_symbol(Symbol::Lt).is_some() {
            let ghost open = self.spec_pos();
            let mut args: Vec<String> = Vec::new();
            assert(strings_view(args@) =~= Seq::<Seq<char>>::empty());
            if !self.check_symbol(Symbol::Gt) {
                loop
                    invariant_except_break
                        grammar::type_list(t, self.spec_pos(), strings_view(args@), "expected generic type argument"@)
                            == grammar::type_list(t, open, Seq::empty(), "expected generic type argument"@),
                    invariant
                        self.advanced_from(old(self)),
                        self.spec_pos() > old(self).spec_pos(),
                        self.toks() == t,
                        grammar::type_list(t, open, Seq::empty(), "expected generic type argument"@) matches Err(e)
                            ==> grammar::parse_type(t, old(self).spec_pos(), message@) == Err::<((Seq<char>, Span), int), _>(e),
                    ensures
                        grammar::type_list(t, open, Seq::empty(), "expected generic type argument"@) == Ok::<_, (SpecDiagnostic, int)>((strings_view(args@), self.spec_pos())),
                    decreases self.tokens@.len() - self.pos,
                {
                    let ghost acc = args@;
                    let (arg, _span) = self.parse_type_annotation("expected generic type argument")?;
                    args.push(arg);
                    assert(strings_view(args@) =~= strings_view(acc).push(arg@));
                    if self.consume_symbol(Symbol::Comma).is_none() {
                        break;
                    }
                }
            }
            self.expect_symbol(Symbol::Gt, "expected `>` after generic type arguments")?;
            let end = self.previous_span().end;
            let mut text = String::new();
            push_str(&mut text, name.as_str());
            push_str(&mut text, "<");
            push_joined(&mut text, &args, ", ");
            push_str(&mut text, ">");
            assert(text@ =~= name@ + "<"@ + join_texts(strings_view(args@), ", "@) + ">"@);
            return Ok((text, Span::new(span.start, end)));
        }
        Ok((name, span))
    }

    /// Skips tokens after a bad item: through the next `;`, or up to the next
    /// token that starts an item, or to `Eof`.
    fn recover_to_item_boundary(&mut self)
        requires
            old(self).wf(),
        ensures
            final(self).advanced_from(old(self)),
            final(self).current() is Eof || final(self).at_item_boundary() || (final(self).spec_pos() > 0
                && final(self).spec_tokens()[final(self).spec_pos() - 1]@.kind == SpecTokenKind::Symbol(
                Symbol::Semicolon,
            )),
            !old(self).at_item_boundary() && !(old(self).current() is Eof) ==> final(self).spec_pos()
                > old(self).spec_pos(),
            final(self).spec_pos() == grammar::recover(old(self).toks(), old(self).spec_pos()),
    {
        while !self.at_eof()
            invariant
                self.advanced_from(old(self)),
                self.toks() == old(self).toks(),
                grammar::recover(self.toks(), self.spec_pos()) == grammar::recover(old(self).toks(), old(self).spec_pos()),
                !old(self).at_item_boundary() && !(old(self).current() is Eof) && self.spec_pos()
                    == old(self).spec_pos() ==> !self.at_item_boundary(),
            decreases self.tokens@.len() - self.pos,
        {
            if self.consume_symbol(Symbol::Semicolon).is_some() {
                return;
            }
            if self.at_boundary_keyword() {
                return;
            }
            self.advance();
        }
    }

    fn at_boundary_keyword(&self) -> (b: bool)
        requires
            self.wf(),
        ensures
            b == self.at_item_boundary(),
    {
        self.check_keyword(Keyword::Module) || self.check_keyword(Keyword::Import) || self.check_keyword(
            Keyword::Export,
        ) || self.check_keyword(Keyword::Struct) || self.check_keyword(Keyword::Enum)
            || self.check_keyword(Keyword::Fn)
    }

    fn expect_ident(&mut self, message: &'static str) -> (r: Result<String, Diagnostic>)
        requires
            old(self).wf(),
        ensures
            final(self).advanced_from(old(self)),
            r is Ok <==> old(self).current() is Ident,
            r matches Ok(name) ==> old(self).current() == SpecTokenKind::Ident(name@)
                && final(self).spec_pos() == old(self).spec_pos() + 1,
            r is Err ==> final(self).spec_pos() == old(self).spec_pos(),
            (match grammar::expect_ident(old(self).toks(), old(self).spec_pos(), message@) {
                Ok(((n, _), p)) => r matches Ok(name) && name@ == n && final(self).spec_pos() == p,
                Err((d, p)) => r matches Err(e) && e@ == d && final(self).spec_pos() == p,
            }),
    {
        let (name, _span) = self.expect_ident_span(message)?;
        Ok(name)
    }

    fn expect_ident_span(&mut self, message: &'static str) -> (r: Result<(String, Span), Diagnostic>)
        requires
            old(self).wf(),
        ensures
            final(self).advanced_from(old(self)),
            r is Ok <==> old(self).current() is Ident,
            r matches Ok((name, span)) ==> old(self).current() == SpecTokenKind::Ident(name@)
                && span == old(self).spec_tokens()[old(self).spec_pos()].span
                && final(self).spec_pos() == old(self).spec_pos() + 1,
            r matches Err(d) ==> final(self).spec_pos() == old(self).spec_pos() && d.code@
                == "PARSE_EXPECTED_IDENT"@ && d.message@ == message@,
            (match grammar::expect_ident(old(self).toks(), old(self).spec_pos(), message@) {
                Ok(((n, sp), p)) => r matches Ok((name, span)) && name@ == n && span == sp
                    && final(self).spec_pos() == p,
                Err((d, p)) => r matches Err(e) && e@ == d && final(self).spec_pos() == p,
            }),
    {
        let span = self.peek_span();
        match &self.tokens[self.pos].kind {
            TokenKind::Ident(name) => {
                let name = name.clone();
                self.advance();
                Ok((name, span))
            },
            _ => Err(self.error_here("PARSE_EXPECTED_IDENT", message)),
        }
    }

    fn expect_symbol(&mut self, symbol: Symbol, message: &'static str) -> (r: Result<(), Diagnostic>)
        requires
            old(self).wf(),
        ensures
            final(self).advanced_from(old(self)),
            r is Ok <==> old(self).current() == SpecTokenKind::Symbol(symbol),
            r is Ok ==> final(self).spec_pos() == old(self).spec_pos() + 1,
            r matches Err(d) ==> final(self).spec_pos() == old(self).spec_pos() && d.code@
                == "PARSE_EXPECTED_SYMBOL"@ && d.message@ == message@ && d.span == old(
                self,
            ).spec_tokens()[old(self).spec_pos()].span,
            (match grammar::expect_symbol(old(self).toks(), old(self).spec_pos(), symbol, message@) {
                Ok(p) => r is Ok && final(self).spec_pos() == p,
                Err((d, p)) => r matches Err(e) && e@ == d && final(self).spec_pos() == p,
            }),
    {
        if self.consume_symbol(symbol).is_some() {
            Ok(())
        } else {
            Err(self.error_here("PARSE_EXPECTED_SYMBOL", message))
        }
    }

    fn consume_keyword(&mut self, keyword: Keyword) -> (r: Option<Span>)
        requires
            old(self).wf(),
        ensures
            final(self).advanced_from(old(self)),
            if old(self).current() == SpecTokenKind::Keyword(keyword) {
                r == Some(old(self).spec_tokens()[old(self).spec_pos()].span) && final(self).spec_pos()
                    == old(self).spec_pos() + 1
            } else {
                r is None && final(self).spec_pos() == old(self).spec_pos()
            },
    {
        if self.check_keyword(keyword) {
            let span = self.peek_span();
            self.advance();
            Some(span)
        } else {
            None
        }
    }

    fn consume_symbol(&mut self, symbol: Symbol) -> (r: Option<Span>)
        requires
            old(self).wf(),
        ensures
            final(self).advanced_from(old(self)),
            if old(self).current() == SpecTokenKind::Symbol(symbol) {
                r == Some(old(self).spec_tokens()[old(self).spec_pos()].span) && final(self).spec_pos()
                    == old(self).spec_pos() + 1
            } else {
                r is None && final(self).spec_pos() == old(self).spec_pos()
            },
    {
        if self.check_symbol(symbol) {
            let span = self.peek_span();
            self.advance();
            Some(span)
        } else {
            None
        }
    }

    fn check_keyword(&self, keyword: Keyword) -> (b: bool)
        requires
            self.wf(),
        ensures
            b == (self.current() == SpecTokenKind::Keyword(keyword)),
    {
        match &self.tokens[self.pos].kind {
            TokenKind::Keyword(found) => *found == keyword,
            _ => false,
        }
    }

    fn check_symbol(&self, symbol: Symbol) -> (b: bool)
        requires
            self.wf(),
        ensures
            b == (self.current() == SpecTokenKind::Symbol(symbol)),
    {
        match &self.tokens[self.pos].kind {
            TokenKind::Symbol(found) => *found == symbol,
            _ => false,
        }
    }

    fn at_eof(&self) -> (b: bool)
        requires
            self.wf(),
        ensures
            b == (self.current() is Eof),
    {
        match &self.tokens[self.pos].kind {
            TokenKind::Eof => true,
            _ => false,
        }
    }

    /// Moves past the current token, which is not `Eof`.
    fn advance(&mut self)
        requires
            old(self).wf(),
            !(old(self).current() is Eof),
        ensures
            final(self).advanced_from(old(self)),
            final(self).spec_pos() == old(self).spec_pos() + 1,
    {
        let n = self.tokens.len();
        assert(self.pos + 1 < n);
        self.pos = self.pos + 1;
    }

    fn peek_span(&self) -> (s: Span)
        requires
            self.wf(),
        ensures
            s == self.spec_tokens()[self.spec_pos()].span,
    {
        self.tokens[self.pos].span
    }

    /// The span of the token before the current one (the current one's at the
    /// start).
    fn previous_span(&self) -> (s: Span)
        requires
            self.wf(),
        ensures
            s == if self.spec_pos() > 0 {
                self.spec_tokens()[self.spec_pos() - 1].span
            } else {
                self.spec_tokens()[0].span
            },
    {
        let index = if self.pos > 0 { self.pos - 1 } else { 0 };
        self.tokens[index].span
    }

    fn error_here(&self, code: &'static str, message: &'static str) -> (d: Diagnostic)
        requires
            self.wf(),
        ensures
            d.code == code,
            d.message@ == message@,
            d.span == self.spec_tokens()[self.spec_pos()].span,
    {
        Diagnostic::new(code, message, self.peek_span())
    }
}

/// The dotted name an expression spells, where it is a name or a chain of
/// field accesses on one, with its span.
fn expr_path(e: &Expr) -> (r: Option<(String, Span)>)
    ensures
        (match grammar::expr_path(expr_model(*e)) {
            Some((path, span)) => r matches Some((p, s)) && p@ == path && s == span,
            None => r is None,
        }),
    decreases expr_size(*e),
{
    match e {
        Expr::Name { name, span } => Some((name.clone(), *span)),
        Expr::FieldAccess { base, field, field_span, span } => match expr_path(base) {
            Some((mut path, _)) => {
                push_str(&mut path, ".");
                push_str(&mut path, field.as_str());
                Some((path, Span::new(span.start, field_span.end)))
            },
            None => None,
        },
        _ => None,
    }
}

/// Appends the parts joined with `sep`.
fn push_joined(out: &mut String, parts: &Vec<String>, sep: &str)
    ensures
        final(out)@ == old(out)@ + join_texts(strings_view(parts@), sep@),
{
    let mut i: usize = 0;
    while i < parts.len()
        invariant
            i <= parts@.len(),
            out@ == old(out)@ + join_texts(strings_view(parts@).subrange(0, i as int), sep@),
        decreases parts.len() - i,
    {
        if i > 0 {
            push_str(out, sep);
        }
        push_str(out, parts[i].as_str());
        proof {
            let sub = strings_view(parts@).subrange(0, i as int + 1);
            assert(sub.drop_last() =~= strings_view(parts@).subrange(0, i as int));
        }
        i = i + 1;
    }
    assert(strings_view(parts@).subrange(0, parts@.len() as int) =~= strings_view(parts@));
}


} // verus!
