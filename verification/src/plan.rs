//! Logical plans and the compiler that makes them from statement text.
//!
//! The statements understood are of one form:
//!
//! ```text
//! SELECT column {, column} [FROM source] [LIMIT count]
//! ```
//!
//! A column is a number, `NULL`, `TRUE`, `FALSE`, a parameter `$n` or the name
//! of a field. Keywords are read in either case. A statement without a source
//! yields one row of its columns, and may name no field: there is nothing to
//! take it from. Parameters are numbered from one, and a statement uses as many
//! as its highest number says.

use vstd::prelude::*;
use vstd::string::StrSliceExecFns;
use vstd::string::StringExecFns;
use crate::frame::{Value, ValueView, values_view};
use crate::lexer::{
    chars_of, in_class, kind_in_range, lemma_span_end_step, span_end, tokenize, tokens_in_order,
    tokens_of, CharClass, CompileCause, CompileError, Token, TokenKind,
};

verus! {

/// One column of a plan.
#[derive(Debug, PartialEq, Eq)]
pub enum Expr {
    Null,
    Bool(bool),
    Int(i64),
    /// The bound parameter with this index, counted from zero.
    Param(usize),
    /// The field of this name in each row of the source.
    Field(String),
}

/// What an `Expr` stands for.
pub enum ExprView {
    Null,
    Bool(bool),
    Int(int),
    Param(nat),
    Field(Seq<char>),
}

impl View for Expr {
    type V = ExprView;

    open spec fn view(&self) -> ExprView {
        match self {
            Expr::Null => ExprView::Null,
            Expr::Bool(b) => ExprView::Bool(*b),
            Expr::Int(i) => ExprView::Int(*i as int),
            Expr::Param(k) => ExprView::Param(*k as nat),
            Expr::Field(name) => ExprView::Field(name@),
        }
    }
}

impl Clone for Expr {
    fn clone(&self) -> (copy: Expr)
        ensures
            copy@ == self@,
    {
        match self {
            Expr::Null => Expr::Null,
            Expr::Bool(b) => Expr::Bool(*b),
            Expr::Int(i) => Expr::Int(*i),
            Expr::Param(k) => Expr::Param(*k),
            Expr::Field(name) => Expr::Field(name.clone()),
        }
    }
}

/// The views of a run of columns, in order.
pub open spec fn exprs_view(exprs: Seq<Expr>) -> Seq<ExprView> {
    exprs.map_values(|e: Expr| e@)
}

/// What a plan says: the columns of each row, the source the rows come from
/// (none: one row of constants), the most rows to deliver, and how many
/// parameters an execution must bind.
pub struct PlanView {
    pub columns: Seq<ExprView>,
    pub target: Option<Seq<char>>,
    pub limit: Option<u64>,
    pub param_count: nat,
}

/// A plan that can be executed: it has a column, its parameters are within
/// the number it asks for, and it names fields only where it has a source.
pub open spec fn plan_well_formed(plan: PlanView) -> bool {
    &&& plan.columns.len() >= 1
    &&& plan.param_count <= crate::lexer::PARAM_MAX
    &&& forall|i: int|
        0 <= i < plan.columns.len() ==> ((#[trigger] plan.columns[i]) matches ExprView::Param(k)
            ==> k < plan.param_count)
    &&& plan.target is None ==> forall|i: int|
        0 <= i < plan.columns.len() ==> !((#[trigger] plan.columns[i]) is Field)
}

/// The compiled form of a statement.
#[derive(Debug, PartialEq, Eq)]
pub struct LogicalPlan {
    columns: Vec<Expr>,
    target: Option<String>,
    limit: Option<u64>,
    param_count: usize,
}

impl View for LogicalPlan {
    type V = PlanView;

    closed spec fn view(&self) -> PlanView {
        PlanView {
            columns: exprs_view(self.columns@),
            target: match self.target {
                Some(name) => Some(name@),
                None => None,
            },
            limit: self.limit,
            param_count: self.param_count as nat,
        }
    }
}

/// The words that a statement is built with.
#[derive(Clone, Copy, Debug, PartialEq, Eq, Structural)]
pub enum Keyword {
    Select,
    From,
    Limit,
    Null,
    True,
    False,
}

impl Keyword {
    pub open spec fn upper(self) -> Seq<char> {
        match self {
            Keyword::Select => "SELECT"@,
            Keyword::From => "FROM"@,
            Keyword::Limit => "LIMIT"@,
            Keyword::Null => "NULL"@,
            Keyword::True => "TRUE"@,
            Keyword::False => "FALSE"@,
        }
    }

    pub open spec fn lower(self) -> Seq<char> {
        match self {
            Keyword::Select => "select"@,
            Keyword::From => "from"@,
            Keyword::Limit => "limit"@,
            Keyword::Null => "null"@,
            Keyword::True => "true"@,
            Keyword::False => "false"@,
        }
    }
}

/// Whether the characters from `start` up to `end` spell a word, each in
/// either case.
pub open spec fn spells(s: Seq<char>, start: int, end: int, upper: Seq<char>, lower: Seq<char>) -> bool {
    &&& end - start == upper.len()
    &&& forall|i: int|
        0 <= i < upper.len() ==> s[start + i] == (#[trigger] upper[i]) || s[start + i] == lower[i]
}

/// Whether a token is a word that spells the keyword.
pub open spec fn is_keyword(s: Seq<char>, t: Token, k: Keyword) -> bool {
    t.kind is Word && spells(s, t.start as int, t.end as int, k.upper(), k.lower())
}

/// The keyword a token spells, if any.
pub open spec fn keyword_of(s: Seq<char>, t: Token) -> Option<Keyword> {
    if is_keyword(s, t, Keyword::Select) {
        Some(Keyword::Select)
    } else if is_keyword(s, t, Keyword::From) {
        Some(Keyword::From)
    } else if is_keyword(s, t, Keyword::Limit) {
        Some(Keyword::Limit)
    } else if is_keyword(s, t, Keyword::Null) {
        Some(Keyword::Null)
    } else if is_keyword(s, t, Keyword::True) {
        Some(Keyword::True)
    } else if is_keyword(s, t, Keyword::False) {
        Some(Keyword::False)
    } else {
        None
    }
}

/// The column a token stands for; none for a comma and for a keyword that is
/// no value.
pub open spec fn item_of(s: Seq<char>, t: Token) -> Option<ExprView> {
    match t.kind {
        TokenKind::Number(v) => Some(ExprView::Int(v as int)),
        TokenKind::Param(k) => Some(ExprView::Param((k - 1) as nat)),
        TokenKind::Comma => None,
        TokenKind::Word => match keyword_of(s, t) {
            Some(Keyword::Null) => Some(ExprView::Null),
            Some(Keyword::True) => Some(ExprView::Bool(true)),
            Some(Keyword::False) => Some(ExprView::Bool(false)),
            Some(_) => None,
            None => Some(ExprView::Field(s.subrange(t.start as int, t.end as int))),
        },
    }
}

/// The columns read so far: the columns, where the first field among them
/// stands, and how many parameters they use.
pub struct Columns {
    pub exprs: Seq<ExprView>,
    pub first_field: Option<usize>,
    pub params: nat,
}

/// No column read yet.
pub open spec fn no_columns() -> Columns {
    Columns { exprs: Seq::empty(), first_field: None, params: 0 }
}

/// The columns read, with one more that a token stands for.
pub open spec fn with_column(cols: Columns, t: Token, e: ExprView) -> Columns {
    Columns {
        exprs: cols.exprs.push(e),
        first_field: if cols.first_field is None && e is Field {
            Some(t.start)
        } else {
            cols.first_field
        },
        params: match e {
            ExprView::Param(k) => if k + 1 > cols.params {
                k + 1
            } else {
                cols.params
            },
            _ => cols.params,
        },
    }
}

/// A statement turned down for a cause at a position.
pub open spec fn fault(cause: CompileCause, position: int) -> CompileError {
    CompileError { cause, position: position as usize }
}

/// Where the token with index `i` begins; the end of the text where there is
/// no such token.
pub open spec fn place_of(s: Seq<char>, tokens: Seq<Token>, i: int) -> int {
    if 0 <= i < tokens.len() {
        tokens[i].start as int
    } else {
        s.len() as int
    }
}

/// The list of columns that begins with token `i`, behind the columns `cols`,
/// and the index of the token that follows the list.
pub open spec fn columns_from(s: Seq<char>, tokens: Seq<Token>, i: int, cols: Columns) -> Result<
    (Columns, int),
    CompileError,
>
    decreases tokens.len() - i,
{
    if i < 0 || i >= tokens.len() {
        Err(fault(CompileCause::ExpectedItem, s.len() as int))
    } else {
        match item_of(s, tokens[i]) {
            None => Err(fault(CompileCause::ExpectedItem, tokens[i].start as int)),
            Some(e) => {
                let next = with_column(cols, tokens[i], e);
                if i + 1 < tokens.len() && tokens[i + 1].kind is Comma {
                    columns_from(s, tokens, i + 2, next)
                } else {
                    Ok((next, i + 1))
                }
            },
        }
    }
}

/// The source clause at token `i`, if the statement has one there.
pub open spec fn source_at(s: Seq<char>, tokens: Seq<Token>, i: int) -> Result<
    (Option<Seq<char>>, int),
    CompileError,
> {
    if 0 <= i < tokens.len() && keyword_of(s, tokens[i]) == Some(Keyword::From) {
        if i + 1 < tokens.len() && tokens[i + 1].kind is Word && keyword_of(s, tokens[i + 1])
            is None {
            Ok((Some(s.subrange(tokens[i + 1].start as int, tokens[i + 1].end as int)), i + 2))
        } else {
            Err(fault(CompileCause::ExpectedTarget, place_of(s, tokens, i + 1)))
        }
    } else {
        Ok((None, i))
    }
}

/// The limit clause at token `i`, if the statement has one there.
pub open spec fn limit_at(s: Seq<char>, tokens: Seq<Token>, i: int) -> Result<
    (Option<u64>, int),
    CompileError,
> {
    if 0 <= i < tokens.len() && keyword_of(s, tokens[i]) == Some(Keyword::Limit) {
        if i + 1 < tokens.len() && tokens[i + 1].kind is Number {
            Ok((Some(tokens[i + 1].kind->Number_0), i + 2))
        } else {
            Err(fault(CompileCause::ExpectedCount, place_of(s, tokens, i + 1)))
        }
    } else {
        Ok((None, i))
    }
}

/// The plan that the tokens of a statement spell.
pub open spec fn plan_of(s: Seq<char>, tokens: Seq<Token>) -> Result<PlanView, CompileError> {
    if tokens.len() == 0 {
        Err(fault(CompileCause::EmptyStatement, 0))
    } else if keyword_of(s, tokens[0]) != Some(Keyword::Select) {
        Err(fault(CompileCause::ExpectedSelect, tokens[0].start as int))
    } else {
        match columns_from(s, tokens, 1, no_columns()) {
            Err(e) => Err(e),
            Ok((cols, i)) => match source_at(s, tokens, i) {
                Err(e) => Err(e),
                Ok((target, j)) => match limit_at(s, tokens, j) {
                    Err(e) => Err(e),
                    Ok((limit, k)) => if k < tokens.len() {
                        Err(fault(CompileCause::TrailingInput, place_of(s, tokens, k)))
                    } else if target is None && cols.first_field is Some {
                        Err(
                            fault(
                                CompileCause::UnresolvedIdentifier,
                                cols.first_field->0 as int,
                            ),
                        )
                    } else {
                        Ok(
                            PlanView {
                                columns: cols.exprs,
                                target,
                                limit,
                                param_count: cols.params,
                            },
                        )
                    },
                },
            },
        }
    }
}

/// The plan of a statement, whatever parameters are bound.
pub open spec fn parse_spec(s: Seq<char>) -> Result<PlanView, CompileError> {
    match tokens_of(s) {
        Err(e) => Err(e),
        Ok(tokens) => plan_of(s, tokens),
    }
}

/// The plan of a statement for an execution that binds `bound` parameters.
pub open spec fn compile_spec(s: Seq<char>, bound: nat) -> Result<PlanView, CompileError> {
    match parse_spec(s) {
        Err(e) => Err(e),
        Ok(plan) => if plan.param_count == bound {
            Ok(plan)
        } else {
            Err(fault(CompileCause::ParameterCount, 0))
        },
    }
}

/// A result of the compiler, with the plan by its view.
pub open spec fn compiled_view(r: Result<LogicalPlan, CompileError>) -> Result<
    PlanView,
    CompileError,
> {
    match r {
        Ok(plan) => Ok(plan@),
        Err(e) => Err(e),
    }
}

impl Keyword {
    pub fn upper_text(self) -> (word: &'static str)
        ensures
            word@ == self.upper(),
    {
        match self {
            Keyword::Select => "SELECT",
            Keyword::From => "FROM",
            Keyword::Limit => "LIMIT",
            Keyword::Null => "NULL",
            Keyword::True => "TRUE",
            Keyword::False => "FALSE",
        }
    }

    pub fn lower_text(self) -> (word: &'static str)
        ensures
            word@ == self.lower(),
    {
        match self {
            Keyword::Select => "select",
            Keyword::From => "from",
            Keyword::Limit => "limit",
            Keyword::Null => "null",
            Keyword::True => "true",
            Keyword::False => "false",
        }
    }

    /// A keyword has as many characters in one case as in the other.
    pub proof fn lemma_cases_agree(self)
        ensures
            self.upper().len() == self.lower().len(),
            self.upper().len() >= 4,
    {
        reveal_strlit("SELECT");
        reveal_strlit("FROM");
        reveal_strlit("LIMIT");
        reveal_strlit("NULL");
        reveal_strlit("TRUE");
        reveal_strlit("FALSE");
        reveal_strlit("select");
        reveal_strlit("from");
        reveal_strlit("limit");
        reveal_strlit("null");
        reveal_strlit("true");
        reveal_strlit("false");
    }
}

fn spelled(chars: &Vec<char>, start: usize, end: usize, upper: &str, lower: &str) -> (b: bool)
    requires
        start <= end <= chars.len(),
        upper@.len() == lower@.len(),
    ensures
        b == spells(chars@, start as int, end as int, upper@, lower@),
{
    let n = upper.unicode_len();
    if end - start != n {
        return false;
    }
    let mut i: usize = 0;
    while i < n
        invariant
            i <= n,
            n == upper@.len(),
            n == lower@.len(),
            end - start == n,
            end <= chars.len(),
            forall|j: int|
                0 <= j < i ==> chars@[start + j] == (#[trigger] upper@[j]) || chars@[start + j]
                    == lower@[j],
        decreases n - i,
    {
        let c: char = chars[start + i];
        if c != upper.get_char(i) && c != lower.get_char(i) {
            assert(!(chars@[start + i] == upper@[i as int] || chars@[start + i] == lower@[i as int]));
            return false;
        }
        i = i + 1;
    }
    true
}

fn is_word(chars: &Vec<char>, t: Token, k: Keyword) -> (b: bool)
    requires
        t.start <= t.end <= chars.len(),
    ensures
        b == is_keyword(chars@, t, k),
{
    proof {
        k.lemma_cases_agree();
    }
    match t.kind {
        TokenKind::Word => spelled(chars, t.start, t.end, k.upper_text(), k.lower_text()),
        _ => false,
    }
}

/// The keyword a token spells, if any.
fn classify(chars: &Vec<char>, t: Token) -> (k: Option<Keyword>)
    requires
        t.start <= t.end <= chars.len(),
    ensures
        k == keyword_of(chars@, t),
{
    if is_word(chars, t, Keyword::Select) {
        Some(Keyword::Select)
    } else if is_word(chars, t, Keyword::From) {
        Some(Keyword::From)
    } else if is_word(chars, t, Keyword::Limit) {
        Some(Keyword::Limit)
    } else if is_word(chars, t, Keyword::Null) {
        Some(Keyword::Null)
    } else if is_word(chars, t, Keyword::True) {
        Some(Keyword::True)
    } else if is_word(chars, t, Keyword::False) {
        Some(Keyword::False)
    } else {
        None
    }
}

/// A column, if there is one, by its view.
pub open spec fn expr_option_view(e: Option<Expr>) -> Option<ExprView> {
    match e {
        Some(e) => Some(e@),
        None => None,
    }
}

fn read_item(text: &str, chars: &Vec<char>, t: Token) -> (item: Option<Expr>)
    requires
        text@ == chars@,
        t.start <= t.end <= chars.len(),
        kind_in_range(t.kind),
    ensures
        expr_option_view(item) == item_of(chars@, t),
{
    match t.kind {
        TokenKind::Number(v) => Some(Expr::Int(v as i64)),
        TokenKind::Param(k) => Some(Expr::Param((k - 1) as usize)),
        TokenKind::Comma => None,
        TokenKind::Word => match classify(chars, t) {
            Some(Keyword::Null) => Some(Expr::Null),
            Some(Keyword::True) => Some(Expr::Bool(true)),
            Some(Keyword::False) => Some(Expr::Bool(false)),
            Some(_) => None,
            None => Some(Expr::Field(String::from_str(text.substring_char(t.start, t.end)))),
        },
    }
}

/// What holds of columns that were read from tokens.
pub open spec fn columns_sound(cols: Columns) -> bool {
    &&& cols.params <= crate::lexer::PARAM_MAX
    &&& forall|i: int|
        0 <= i < cols.exprs.len() ==> ((#[trigger] cols.exprs[i]) matches ExprView::Param(k)
            ==> k < cols.params)
    &&& cols.first_field is None ==> forall|i: int|
        0 <= i < cols.exprs.len() ==> !((#[trigger] cols.exprs[i]) is Field)
}

fn read_columns(text: &str, chars: &Vec<char>, tokens: &Vec<Token>) -> (r: Result<
    (Vec<Expr>, Option<usize>, usize, usize),
    CompileError,
>)
    requires
        text@ == chars@,
        tokens_in_order(tokens@, chars.len() as int),
    ensures
        match r {
            Ok((exprs, first_field, params, next)) => {
                let cols = Columns { exprs: exprs_view(exprs@), first_field, params: params as nat };
                &&& columns_from(chars@, tokens@, 1, no_columns()) == Ok::<
                    (Columns, int),
                    CompileError,
                >((cols, next as int))
                &&& next <= tokens.len()
                &&& exprs.len() >= 1
                &&& columns_sound(cols)
            },
            Err(e) => columns_from(chars@, tokens@, 1, no_columns()) == Err::<
                (Columns, int),
                CompileError,
            >(e),
        },
{
    let mut exprs: Vec<Expr> = Vec::new();
    let mut first_field: Option<usize> = None;
    let mut params: usize = 0;
    let mut i: usize = 1;
    assert(exprs_view(exprs@) =~= Seq::<ExprView>::empty());
    loop
        invariant
            text@ == chars@,
            tokens_in_order(tokens@, chars.len() as int),
            1 <= i,
            i == 1 || i <= tokens.len(),
            i > 1 ==> exprs.len() >= 1,
            columns_sound(Columns { exprs: exprs_view(exprs@), first_field, params: params as nat }),
            columns_from(chars@, tokens@, 1, no_columns()) == columns_from(
                chars@,
                tokens@,
                i as int,
                Columns { exprs: exprs_view(exprs@), first_field, params: params as nat },
            ),
        decreases tokens.len() + 1 - i,
    {
        if i >= tokens.len() {
            return Err(CompileError { cause: CompileCause::ExpectedItem, position: chars.len() });
        }
        let t = tokens[i];
        let ghost before = Columns { exprs: exprs_view(exprs@), first_field, params: params as nat };
        match read_item(text, chars, t) {
            None => {
                return Err(CompileError { cause: CompileCause::ExpectedItem, position: t.start });
            },
            Some(e) => {
                match &e {
                    Expr::Param(k) => {
                        if *k + 1 > params {
                            params = *k + 1;
                        }
                    },
                    Expr::Field(_) => {
                        if first_field.is_none() {
                            first_field = Some(t.start);
                        }
                    },
                    _ => {},
                }
                let ghost ev = e@;
                exprs.push(e);
                proof {
                    let after = Columns {
                        exprs: exprs_view(exprs@),
                        first_field,
                        params: params as nat,
                    };
                    assert(after.exprs =~= before.exprs.push(ev));
                    assert(after == with_column(before, t, ev));
                    assert forall|j: int| 0 <= j < after.exprs.len() implies ((
                    #[trigger] after.exprs[j]) matches ExprView::Param(k) ==> k < after.params) by {
                        if j < before.exprs.len() {
                            assert(after.exprs[j] == before.exprs[j]);
                        }
                    }
                    if after.first_field is None {
                        assert forall|j: int| 0 <= j < after.exprs.len() implies !((
                        #[trigger] after.exprs[j]) is Field) by {
                            if j < before.exprs.len() {
                                assert(after.exprs[j] == before.exprs[j]);
                            }
                        }
                    }
                }
            },
        }
        if i + 1 < tokens.len() && is_comma(tokens[i + 1]) {
            i = i + 2;
        } else {
            return Ok((exprs, first_field, params, i + 1));
        }
    }
}

fn is_comma(t: Token) -> (b: bool)
    ensures
        b == (t.kind is Comma),
{
    match t.kind {
        TokenKind::Comma => true,
        _ => false,
    }
}

fn place(chars: &Vec<char>, tokens: &Vec<Token>, i: usize) -> (pos: usize)
    ensures
        pos == place_of(chars@, tokens@, i as int),
{
    if i < tokens.len() {
        tokens[i].start
    } else {
        chars.len()
    }
}

fn keyword_at(chars: &Vec<char>, tokens: &Vec<Token>, i: usize, k: Keyword) -> (b: bool)
    requires
        tokens_in_order(tokens@, chars.len() as int),
    ensures
        b == (i < tokens.len() && keyword_of(chars@, tokens@[i as int]) == Some(k)),
{
    if i < tokens.len() {
        match classify(chars, tokens[i]) {
            Some(found) => found == k,
            None => false,
        }
    } else {
        false
    }
}

/// Compiles a statement without looking at the parameters bound to it: the
/// plan says how many it uses.
pub fn parse(text: &str) -> (result: Result<LogicalPlan, CompileError>)
    ensures
        compiled_view(result) == parse_spec(text@),
        result matches Ok(plan) ==> plan_well_formed(plan@),
{
    let chars = chars_of(text);
    let tokens = match tokenize(&chars) {
        Ok(tokens) => tokens,
        Err(e) => {
            return Err(e);
        },
    };
    if tokens.len() == 0 {
        return Err(CompileError { cause: CompileCause::EmptyStatement, position: 0 });
    }
    if !keyword_at(&chars, &tokens, 0, Keyword::Select) {
        return Err(CompileError { cause: CompileCause::ExpectedSelect, position: tokens[0].start });
    }
    let (columns, first_field, params, i) = match read_columns(text, &chars, &tokens) {
        Ok(found) => found,
        Err(e) => {
            return Err(e);
        },
    };
    let mut j: usize = i;
    let mut target: Option<String> = None;
    if keyword_at(&chars, &tokens, i, Keyword::From) {
        if i + 1 < tokens.len() && is_plain_word(&chars, tokens[i + 1]) {
            let t = tokens[i + 1];
            target = Some(String::from_str(text.substring_char(t.start, t.end)));
            j = i + 2;
        } else {
            return Err(
                CompileError {
                    cause: CompileCause::ExpectedTarget,
                    position: place(&chars, &tokens, i + 1),
                },
            );
        }
    }
    let mut k: usize = j;
    let mut limit: Option<u64> = None;
    if keyword_at(&chars, &tokens, j, Keyword::Limit) {
        let count = if j + 1 < tokens.len() {
            number_of(tokens[j + 1])
        } else {
            None
        };
        match count {
            Some(n) => {
                limit = Some(n);
                k = j + 2;
            },
            None => {
                return Err(
                    CompileError {
                        cause: CompileCause::ExpectedCount,
                        position: place(&chars, &tokens, j + 1),
                    },
                );
            },
        }
    }
    if k < tokens.len() {
        return Err(CompileError { cause: CompileCause::TrailingInput, position: tokens[k].start });
    }
    if target.is_none() {
        match first_field {
            Some(position) => {
                return Err(CompileError { cause: CompileCause::UnresolvedIdentifier, position });
            },
            None => {},
        }
    }
    Ok(LogicalPlan { columns, target, limit, param_count: params })
}

fn is_plain_word(chars: &Vec<char>, t: Token) -> (b: bool)
    requires
        t.start <= t.end <= chars.len(),
    ensures
        b == (t.kind is Word && keyword_of(chars@, t) is None),
{
    match t.kind {
        TokenKind::Word => classify(chars, t).is_none(),
        _ => false,
    }
}

fn number_of(t: Token) -> (n: Option<u64>)
    ensures
        n == match t.kind {
            TokenKind::Number(v) => Some(v),
            _ => None,
        },
{
    match t.kind {
        TokenKind::Number(v) => Some(v),
        _ => None,
    }
}

/// Compiles a statement for an execution that binds `bound` parameters.
pub fn compile_for(text: &str, bound: usize) -> (result: Result<LogicalPlan, CompileError>)
    ensures
        compiled_view(result) == compile_spec(text@, bound as nat),
        result matches Ok(plan) ==> plan_well_formed(plan@),
{
    match parse(text) {
        Err(e) => Err(e),
        Ok(plan) => if plan.param_count == bound {
            Ok(plan)
        } else {
            Err(CompileError { cause: CompileCause::ParameterCount, position: 0 })
        },
    }
}

/// Compiles a statement for an execution that binds the parameters given:
/// they must be as many as the statement uses.
pub fn compile(text: &str, params: &Vec<Value>) -> (result: Result<LogicalPlan, CompileError>)
    ensures
        compiled_view(result) == compile_spec(text@, params@.len()),
        result matches Ok(plan) ==> plan_well_formed(plan@),
{
    compile_for(text, params.len())
}

/// A copy of a run of columns.
pub fn copy_exprs(exprs: &Vec<Expr>) -> (copy: Vec<Expr>)
    ensures
        exprs_view(copy@) == exprs_view(exprs@),
{
    let mut copy: Vec<Expr> = Vec::new();
    let mut i: usize = 0;
    while i < exprs.len()
        invariant
            i <= exprs.len(),
            copy.len() == i,
            forall|j: int| 0 <= j < i ==> copy[j]@ == exprs[j]@,
        decreases exprs.len() - i,
    {
        copy.push(exprs[i].clone());
        i = i + 1;
    }
    assert(exprs_view(copy@) =~= exprs_view(exprs@));
    copy
}

impl Clone for LogicalPlan {
    fn clone(&self) -> (copy: LogicalPlan)
        ensures
            copy@ == self@,
    {
        LogicalPlan {
            columns: copy_exprs(&self.columns),
            target: match &self.target {
                Some(name) => Some(name.clone()),
                None => None,
            },
            limit: self.limit,
            param_count: self.param_count,
        }
    }
}

/// How many of the columns name a field.
pub open spec fn field_count(columns: Seq<ExprView>) -> nat
    decreases columns.len(),
{
    if columns.len() == 0 {
        0
    } else {
        field_count(columns.drop_last()) + if columns.last() is Field {
            1nat
        } else {
            0nat
        }
    }
}

/// The names of the fields among the columns, in order.
pub open spec fn field_names(columns: Seq<ExprView>) -> Seq<Seq<char>>
    decreases columns.len(),
{
    if columns.len() == 0 {
        Seq::empty()
    } else if columns.last() is Field {
        field_names(columns.drop_last()).push(columns.last()->Field_0)
    } else {
        field_names(columns.drop_last())
    }
}

/// The value of column `i` in the row made from the values `fields` that a
/// source gave for the fields of the plan, in the order of the columns that
/// name them. A parameter that is not bound counts as null.
pub open spec fn column_value(
    columns: Seq<ExprView>,
    params: Seq<ValueView>,
    fields: Seq<ValueView>,
    i: int,
) -> ValueView {
    match columns[i] {
        ExprView::Null => ValueView::Null,
        ExprView::Bool(b) => ValueView::Bool(b),
        ExprView::Int(n) => ValueView::Int(n),
        ExprView::Param(k) => if k < params.len() {
            params[k as int]
        } else {
            ValueView::Null
        },
        ExprView::Field(_) => fields[field_count(columns.take(i)) as int],
    }
}

/// The row that the columns make of the values a source gave for their
/// fields; none where the source gave more or fewer values than there are
/// fields.
pub open spec fn project_spec(
    columns: Seq<ExprView>,
    params: Seq<ValueView>,
    fields: Seq<ValueView>,
) -> Option<Seq<ValueView>> {
    if fields.len() == field_count(columns) {
        Some(Seq::new(columns.len(), |i: int| column_value(columns, params, fields, i)))
    } else {
        None
    }
}

/// The first columns hold no more fields than all of them.
pub proof fn lemma_field_count_grows(columns: Seq<ExprView>, i: int)
    requires
        0 <= i <= columns.len(),
    ensures
        field_count(columns.take(i)) <= field_count(columns),
    decreases columns.len() - i,
{
    if i < columns.len() {
        lemma_field_count_grows(columns, i + 1);
        assert(columns.take(i + 1).drop_last() =~= columns.take(i));
    } else {
        assert(columns.take(i) =~= columns);
    }
}

/// A plan without a source has no fields among its columns.
pub proof fn lemma_constant_plan_has_no_fields(plan: PlanView, i: int)
    requires
        plan_well_formed(plan),
        plan.target is None,
        0 <= i <= plan.columns.len(),
    ensures
        field_count(plan.columns.take(i)) == 0,
    decreases i,
{
    if i > 0 {
        lemma_constant_plan_has_no_fields(plan, i - 1);
        assert(plan.columns.take(i).drop_last() =~= plan.columns.take(i - 1));
        assert(plan.columns.take(i).last() == plan.columns[i - 1]);
    }
}

/// A row, if there is one, by its view.
pub open spec fn row_option_view(row: Option<Vec<Value>>) -> Option<Seq<ValueView>> {
    match row {
        Some(values) => Some(values_view(values@)),
        None => None,
    }
}

impl LogicalPlan {
    pub fn columns(&self) -> (columns: &Vec<Expr>)
        ensures
            exprs_view(columns@) == self@.columns,
    {
        &self.columns
    }

    /// The data source the plan reads, if it reads one.
    pub fn target(&self) -> (target: Option<&String>)
        ensures
            match target {
                Some(name) => self@.target == Some(name@),
                None => self@.target is None,
            },
    {
        match &self.target {
            Some(name) => Some(name),
            None => None,
        }
    }

    pub fn limit(&self) -> (limit: Option<u64>)
        ensures
            limit == self@.limit,
    {
        self.limit
    }

    pub fn param_count(&self) -> (n: usize)
        ensures
            n == self@.param_count,
    {
        self.param_count
    }

    /// The rows the plan is expected to yield, where that is known before it
    /// runs: one for a plan without a source, the limit for one with a source
    /// and a limit.
    pub fn estimated_cost(&self) -> (cost: Option<u64>)
        ensures
            cost == match self@.target {
                None => Some(1u64),
                Some(_) => self@.limit,
            },
    {
        match &self.target {
            None => Some(1),
            Some(_) => self.limit,
        }
    }

    /// The names of the fields the plan takes from its source, in the order
    /// of its columns.
    pub fn fields(&self) -> (names: Vec<String>)
        ensures
            names@.map_values(|n: String| n@) == field_names(self@.columns),
    {
        let mut names: Vec<String> = Vec::new();
        let mut i: usize = 0;
        assert(self@.columns.take(0) =~= Seq::<ExprView>::empty());
        assert(names@.map_values(|n: String| n@) =~= Seq::<Seq<char>>::empty());
        while i < self.columns.len()
            invariant
                i <= self.columns.len(),
                names@.map_values(|n: String| n@) == field_names(self@.columns.take(i as int)),
            decreases self.columns.len() - i,
        {
            let ghost before = names@.map_values(|n: String| n@);
            proof {
                assert(self@.columns.take(i + 1).drop_last() =~= self@.columns.take(i as int));
                assert(self@.columns.take(i + 1).last() == self.columns[i as int]@);
            }
            match &self.columns[i] {
                Expr::Field(name) => {
                    names.push(name.clone());
                    assert(names@.map_values(|n: String| n@) =~= before.push(name@));
                },
                _ => {},
            }
            i = i + 1;
        }
        assert(self@.columns.take(i as int) =~= self@.columns);
        names
    }

    /// Makes a row of the plan's columns: constants as they are, parameters
    /// from `params`, fields from `fields`, which holds one value for each
    /// field among the columns, in their order.
    pub fn project(&self, params: &Vec<Value>, fields: &Vec<Value>) -> (row: Option<Vec<Value>>)
        ensures
            row_option_view(row) == project_spec(
                self@.columns,
                values_view(params@),
                values_view(fields@),
            ),
    {
        let ghost columns = self@.columns;
        let ghost ps = values_view(params@);
        let ghost fs = values_view(fields@);
        let mut row: Vec<Value> = Vec::new();
        let mut used: usize = 0;
        let mut i: usize = 0;
        assert(columns.take(0) =~= Seq::<ExprView>::empty());
        while i < self.columns.len()
            invariant
                columns == self@.columns,
                ps == values_view(params@),
                fs == values_view(fields@),
                i <= self.columns.len(),
                row.len() == i,
                used == field_count(columns.take(i as int)),
                used <= fields.len(),
                forall|j: int| 0 <= j < i ==> row[j]@ == column_value(columns, ps, fs, j),
            decreases self.columns.len() - i,
        {
            proof {
                assert(columns.take(i + 1).drop_last() =~= columns.take(i as int));
                assert(columns.take(i + 1).last() == self.columns[i as int]@);
            }
            let value = match &self.columns[i] {
                Expr::Null => Value::Null,
                Expr::Bool(b) => Value::Bool(*b),
                Expr::Int(n) => Value::Int(*n),
                Expr::Param(k) => if *k < params.len() {
                    params[*k].clone()
                } else {
                    Value::Null
                },
                Expr::Field(_) => {
                    if used >= fields.len() {
                        proof {
                            lemma_field_count_grows(columns, i + 1);
                        }
                        return None;
                    }
                    used = used + 1;
                    fields[used - 1].clone()
                },
            };
            row.push(value);
            i = i + 1;
        }
        assert(columns.take(i as int) =~= columns);
        if used != fields.len() {
            return None;
        }
        assert(values_view(row@) =~= Seq::new(
            columns.len(),
            |i: int| column_value(columns, ps, fs, i),
        ));
        Some(row)
    }
}

/// A plan in words: what it reads.
pub open spec fn plan_text(plan: PlanView) -> Seq<char> {
    match plan.target {
        None => "constant row"@,
        Some(name) => "scan of "@ + name,
    }
}

impl LogicalPlan {
    /// The plan in words.
    pub fn describe(&self) -> (text: String)
        ensures
            text@ == plan_text(self@),
    {
        match &self.target {
            None => String::from_str("constant row"),
            Some(name) => String::from_str("scan of ").concat(name.as_str()),
        }
    }
}

/// A statement of blanks alone, and so the empty one, is turned down as
/// empty.
pub proof fn lemma_blank_statement_is_empty(s: Seq<char>, bound: nat)
    requires
        forall|i: int| 0 <= i < s.len() ==> in_class(CharClass::Blank, #[trigger] s[i]),
    ensures
        parse_spec(s) == Err::<PlanView, CompileError>(fault(CompileCause::EmptyStatement, 0)),
        compile_spec(s, bound) == Err::<PlanView, CompileError>(
            fault(CompileCause::EmptyStatement, 0),
        ),
{
    lemma_span_end_step(s, 0, s.len() as int, CharClass::Blank);
    assert(span_end(s, s.len() as int, CharClass::Blank) == s.len());
    assert(tokens_of(s) == Ok::<Seq<Token>, CompileError>(Seq::empty()));
}

} // verus!
