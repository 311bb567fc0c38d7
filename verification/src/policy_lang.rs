//! The textual policy expression language.
//!
//! An expression is a boolean combination of attribute predicates:
//! quoted strings such as `"role=FRONTEND@A"`, combined with `and` and `or`
//! (with `and` binding tighter) and grouped by parentheses. A predicate
//! holds of a claim when the claim binds the attribute named left of the
//! first `=` to exactly the text right of it.

use vstd::prelude::*;

use crate::claim::NebulaClaim;
use crate::claim::spec_lookup;

verus! {

/// A lexical token of the expression language.
pub enum PolicyToken {
    LParen,
    RParen,
    KwAnd,
    KwOr,
    Pred(String),
}

/// The mathematical shadow of a token: predicates as character sequences.
pub enum TokenModel {
    LParen,
    RParen,
    KwAnd,
    KwOr,
    Pred(Seq<char>),
}

impl View for PolicyToken {
    type V = TokenModel;

    open spec fn view(&self) -> TokenModel {
        match self {
            PolicyToken::LParen => TokenModel::LParen,
            PolicyToken::RParen => TokenModel::RParen,
            PolicyToken::KwAnd => TokenModel::KwAnd,
            PolicyToken::KwOr => TokenModel::KwOr,
            PolicyToken::Pred(s) => TokenModel::Pred(s@),
        }
    }
}

/// A parsed expression.
pub enum PolicyExpr {
    Pred(String),
    And(Box<PolicyExpr>, Box<PolicyExpr>),
    Or(Box<PolicyExpr>, Box<PolicyExpr>),
}

/// The mathematical shadow of a parsed expression.
pub enum ExprModel {
    Pred(Seq<char>),
    And(Box<ExprModel>, Box<ExprModel>),
    Or(Box<ExprModel>, Box<ExprModel>),
}

/// The model of a parsed expression, structurally.
pub open spec fn expr_model(e: PolicyExpr) -> ExprModel
    decreases e,
{
    match e {
        PolicyExpr::Pred(s) => ExprModel::Pred(s@),
        PolicyExpr::And(l, r) => ExprModel::And(Box::new(expr_model(*l)), Box::new(expr_model(*r))),
        PolicyExpr::Or(l, r) => ExprModel::Or(Box::new(expr_model(*l)), Box::new(expr_model(*r))),
    }
}

impl View for PolicyExpr {
    type V = ExprModel;

    open spec fn view(&self) -> ExprModel {
        expr_model(*self)
    }
}

/// A word character: the keywords are lower-case words.
pub open spec fn is_word_char(c: char) -> bool {
    'a' <= c <= 'z'
}

/// The maximal word starting at `pos` and the position after it.
pub open spec fn scan_word(s: Seq<char>, pos: int) -> (Seq<char>, int)
    decreases s.len() - pos,
{
    if pos < 0 || pos >= s.len() || !is_word_char(s[pos]) {
        (Seq::empty(), pos)
    } else {
        let (w, p) = scan_word(s, pos + 1);
        (seq![s[pos]] + w, p)
    }
}

/// The content of a quoted predicate opened just before `pos`, with the
/// position after the closing quote; `None` when the quote never closes.
pub open spec fn scan_quoted(s: Seq<char>, pos: int) -> Option<(Seq<char>, int)>
    decreases s.len() - pos,
{
    if pos < 0 || pos >= s.len() {
        None
    } else if s[pos] == '"' {
        Some((Seq::empty(), pos + 1))
    } else {
        match scan_quoted(s, pos + 1) {
            Some((content, p)) => Some((seq![s[pos]] + content, p)),
            None => None,
        }
    }
}

/// The token stream from `pos` on, or `None` when a character fits no token.
pub open spec fn spec_tokenize_from(s: Seq<char>, pos: int) -> Option<Seq<TokenModel>>
    decreases s.len() - pos,
{
    if pos < 0 || pos >= s.len() {
        Some(Seq::empty())
    } else if s[pos] == ' ' {
        spec_tokenize_from(s, pos + 1)
    } else if s[pos] == '(' {
        cons_token(TokenModel::LParen, spec_tokenize_from(s, pos + 1))
    } else if s[pos] == ')' {
        cons_token(TokenModel::RParen, spec_tokenize_from(s, pos + 1))
    } else if s[pos] == '"' {
        match scan_quoted(s, pos + 1) {
            Some((content, p)) => if pos + 1 <= p <= s.len() {
                cons_token(TokenModel::Pred(content), spec_tokenize_from(s, p))
            } else {
                None
            },
            None => None,
        }
    } else if is_word_char(s[pos]) {
        let (w, p) = scan_word(s, pos);
        if pos < p <= s.len() {
            if w =~= seq!['a', 'n', 'd'] {
                cons_token(TokenModel::KwAnd, spec_tokenize_from(s, p))
            } else if w =~= seq!['o', 'r'] {
                cons_token(TokenModel::KwOr, spec_tokenize_from(s, p))
            } else {
                None
            }
        } else {
            None
        }
    } else {
        None
    }
}

/// Prepends a token to a stream that may already have failed.
pub open spec fn cons_token(t: TokenModel, rest: Option<Seq<TokenModel>>) -> Option<
    Seq<TokenModel>,
> {
    match rest {
        Some(ts) => Some(seq![t] + ts),
        None => None,
    }
}

/// The token stream of a whole expression.
pub open spec fn spec_tokenize(s: Seq<char>) -> Option<Seq<TokenModel>> {
    spec_tokenize_from(s, 0)
}

/// The word scan never moves backwards and stays inside the text.
pub proof fn lemma_scan_word_bounds(s: Seq<char>, pos: int)
    requires
        0 <= pos <= s.len(),
    ensures
        pos <= scan_word(s, pos).1 <= s.len(),
    decreases s.len() - pos,
{
    if pos < s.len() && is_word_char(s[pos]) {
        lemma_scan_word_bounds(s, pos + 1);
    }
}

/// Splits an expression into tokens; `None` when some character fits no
/// token or a quote never closes.
pub fn tokenize(s: &str) -> (r: Option<Vec<PolicyToken>>)
    ensures
        match r {
            Some(v) => spec_tokenize(s@) == Some(
                v@.map_values(|t: PolicyToken| t@),
            ),
            None => spec_tokenize(s@) is None,
        },
{
    let n = s.unicode_len();
    let mut toks: Vec<PolicyToken> = Vec::new();
    let mut i: usize = 0;
    while i < n
        invariant
            0 <= i <= n,
            n == s@.len(),
            match spec_tokenize_from(s@, i as int) {
                Some(ts) => spec_tokenize(s@) == Some(
                    toks@.map_values(|t: PolicyToken| t@) + ts,
                ),
                None => spec_tokenize(s@) is None,
            },
        decreases n - i,
    {
        let c = s.get_char(i);
        if c == ' ' {
            i = i + 1;
        } else if c == '(' {
            let ghost before = toks@;
            toks.push(PolicyToken::LParen);
            proof {
                assert(toks@.map_values(|t: PolicyToken| t@) =~= before.map_values(
                    |t: PolicyToken| t@,
                ).push(TokenModel::LParen));
                if spec_tokenize_from(s@, i + 1) is Some {
                    let ts = spec_tokenize_from(s@, i + 1)->Some_0;
                    assert(before.map_values(|t: PolicyToken| t@) + (seq![TokenModel::LParen] + ts)
                        =~= toks@.map_values(|t: PolicyToken| t@) + ts);
                }
            }
            i = i + 1;
        } else if c == ')' {
            let ghost before = toks@;
            toks.push(PolicyToken::RParen);
            proof {
                assert(toks@.map_values(|t: PolicyToken| t@) =~= before.map_values(
                    |t: PolicyToken| t@,
                ).push(TokenModel::RParen));
                if spec_tokenize_from(s@, i + 1) is Some {
                    let ts = spec_tokenize_from(s@, i + 1)->Some_0;
                    assert(before.map_values(|t: PolicyToken| t@) + (seq![TokenModel::RParen] + ts)
                        =~= toks@.map_values(|t: PolicyToken| t@) + ts);
                }
            }
            i = i + 1;
        } else if c == '"' {
            let start = i + 1;
            let mut j = start;
            loop
                invariant_except_break
                    start <= j <= n,
                    n == s@.len(),
                    start == i + 1,
                    i < n,
                    s@[i as int] == '"',
                    match scan_quoted(s@, j as int) {
                        Some((content, p)) => scan_quoted(s@, start as int) == Some(
                            (s@.subrange(start as int, j as int) + content, p),
                        ),
                        None => scan_quoted(s@, start as int) is None,
                    },
                    match spec_tokenize_from(s@, i as int) {
                        Some(ts) => spec_tokenize(s@) == Some(
                            toks@.map_values(|t: PolicyToken| t@) + ts,
                        ),
                        None => spec_tokenize(s@) is None,
                    },
                ensures
                    start <= j < n,
                    n == s@.len(),
                    start == i + 1,
                    scan_quoted(s@, start as int) == Some(
                        (s@.subrange(start as int, j as int), j + 1),
                    ),
                decreases n - j,
            {
                if j == n {
                    // the quote never closes: the whole scan fails
                    return None;
                }
                let cj = s.get_char(j);
                if cj == '"' {
                    proof {
                        assert(s@.subrange(start as int, j as int) + Seq::<char>::empty()
                            =~= s@.subrange(start as int, j as int));
                    }
                    break ;
                }
                proof {
                    if scan_quoted(s@, j + 1) is Some {
                        let (content, p) = scan_quoted(s@, j + 1)->Some_0;
                        assert(s@.subrange(start as int, j as int) + (seq![s@[j as int]] + content)
                            =~= s@.subrange(start as int, j + 1) + content);
                    }
                }
                j = j + 1;
            }
            let content = s.substring_char(start, j).to_owned();
            let ghost before = toks@;
            toks.push(PolicyToken::Pred(content));
            proof {
                assert(toks@.map_values(|t: PolicyToken| t@) =~= before.map_values(
                    |t: PolicyToken| t@,
                ).push(TokenModel::Pred(s@.subrange(start as int, j as int))));
                if spec_tokenize_from(s@, j + 1) is Some {
                    let ts = spec_tokenize_from(s@, j + 1)->Some_0;
                    assert(before.map_values(|t: PolicyToken| t@) + (seq![
                        TokenModel::Pred(s@.subrange(start as int, j as int)),
                    ] + ts) =~= toks@.map_values(|t: PolicyToken| t@) + ts);
                }
            }
            i = j + 1;
        } else if 'a' <= c && c <= 'z' {
            let mut k = i + 1;
            loop
                invariant_except_break
                    i < k <= n,
                    n == s@.len(),
                    forall|m: int| i <= m < k ==> is_word_char(#[trigger] s@[m]),
                ensures
                    i < k <= n,
                    forall|m: int| i <= m < k ==> is_word_char(#[trigger] s@[m]),
                    k == n || !is_word_char(s@[k as int]),
                decreases n - k,
            {
                if k == n {
                    break ;
                }
                let ck = s.get_char(k);
                if !('a' <= ck && ck <= 'z') {
                    break ;
                }
                k = k + 1;
            }
            proof {
                lemma_scan_word_frontier(s@, i as int, k as int);
            }
            let len = k - i;
            let tok: PolicyToken = if len == 3 && s.get_char(i) == 'a' && s.get_char(i + 1) == 'n'
                && s.get_char(i + 2) == 'd' {
                proof {
                    assert(s@.subrange(i as int, k as int) =~= seq!['a', 'n', 'd']);
                }
                PolicyToken::KwAnd
            } else if len == 2 && s.get_char(i) == 'o' && s.get_char(i + 1) == 'r' {
                proof {
                    assert(s@.subrange(i as int, k as int) =~= seq!['o', 'r']);
                }
                PolicyToken::KwOr
            } else {
                // a bare word that is no keyword fits no token
                proof {
                    let w = s@.subrange(i as int, k as int);
                    if w =~= seq!['a', 'n', 'd'] {
                        assert(w.len() == 3 && w[0] == 'a' && w[1] == 'n' && w[2] == 'd');
                    }
                    if w =~= seq!['o', 'r'] {
                        assert(w.len() == 2 && w[0] == 'o' && w[1] == 'r');
                    }
                }
                return None;
            };
            let ghost tokv = tok@;
            let ghost before = toks@;
            toks.push(tok);
            proof {
                assert(toks@.map_values(|t: PolicyToken| t@) =~= before.map_values(
                    |t: PolicyToken| t@,
                ).push(tokv));
                if spec_tokenize_from(s@, k as int) is Some {
                    let ts = spec_tokenize_from(s@, k as int)->Some_0;
                    assert(before.map_values(|t: PolicyToken| t@) + (seq![tokv] + ts)
                        =~= toks@.map_values(|t: PolicyToken| t@) + ts);
                }
            }
            i = k;
        } else {
            return None;
        }
    }
    proof {
        assert(toks@.map_values(|t: PolicyToken| t@) + Seq::<TokenModel>::empty()
            =~= toks@.map_values(|t: PolicyToken| t@));
    }
    Some(toks)
}

/// A maximal run of word characters is exactly what the word scan returns.
pub proof fn lemma_scan_word_frontier(s: Seq<char>, i: int, k: int)
    requires
        0 <= i <= k <= s.len(),
        forall|m: int| i <= m < k ==> is_word_char(#[trigger] s[m]),
        k == s.len() || !is_word_char(s[k]),
    ensures
        scan_word(s, i) == (s.subrange(i, k), k),
    decreases k - i,
{
    if i == k {
        assert(s.subrange(i, k) =~= Seq::<char>::empty());
    } else {
        lemma_scan_word_frontier(s, i + 1, k);
        assert(seq![s[i]] + s.subrange(i + 1, k) =~= s.subrange(i, k));
    }
}

/// A successful quote scan ends past its starting point, inside the text.
pub proof fn lemma_scan_quoted_bounds(s: Seq<char>, pos: int)
    requires
        0 <= pos <= s.len(),
        scan_quoted(s, pos) is Some,
    ensures
        pos < scan_quoted(s, pos)->Some_0.1 <= s.len(),
    decreases s.len() - pos,
{
    if pos < s.len() && s[pos] != '"' {
        lemma_scan_quoted_bounds(s, pos + 1);
    }
}

/// A primary expression at `pos`: a predicate, or a parenthesized expression.
pub open spec fn sp_primary(toks: Seq<TokenModel>, pos: int) -> Option<(ExprModel, int)>
    decreases toks.len() - pos, 0int,
{
    if pos < 0 || pos >= toks.len() {
        None
    } else {
        match toks[pos] {
            TokenModel::Pred(p) => Some((ExprModel::Pred(p), pos + 1)),
            TokenModel::LParen => match sp_or(toks, pos + 1) {
                Some((e, p2)) => if p2 < toks.len() && toks[p2] == TokenModel::RParen {
                    Some((e, p2 + 1))
                } else {
                    None
                },
                None => None,
            },
            _ => None,
        }
    }
}

/// A conjunction at `pos`: primaries joined by `and`, associated to the left.
pub open spec fn sp_and(toks: Seq<TokenModel>, pos: int) -> Option<(ExprModel, int)>
    decreases toks.len() - pos, 1int,
{
    match sp_primary(toks, pos) {
        Some((l, p)) => if pos < p <= toks.len() {
            sp_and_rest(toks, l, p)
        } else {
            None
        },
        None => None,
    }
}

/// Folds further `and` operands onto `left`.
pub open spec fn sp_and_rest(toks: Seq<TokenModel>, left: ExprModel, pos: int) -> Option<
    (ExprModel, int),
>
    decreases toks.len() - pos, 3int,
{
    if 0 <= pos < toks.len() && toks[pos] == TokenModel::KwAnd {
        match sp_primary(toks, pos + 1) {
            Some((r, p2)) => if pos + 1 < p2 <= toks.len() {
                sp_and_rest(toks, ExprModel::And(Box::new(left), Box::new(r)), p2)
            } else {
                None
            },
            None => None,
        }
    } else {
        Some((left, pos))
    }
}

/// A disjunction at `pos`: conjunctions joined by `or`, associated to the
/// left. This is the whole grammar: `and` binds tighter than `or`.
pub open spec fn sp_or(toks: Seq<TokenModel>, pos: int) -> Option<(ExprModel, int)>
    decreases toks.len() - pos, 2int,
{
    match sp_and(toks, pos) {
        Some((l, p)) => if pos < p <= toks.len() {
            sp_or_rest(toks, l, p)
        } else {
            None
        },
        None => None,
    }
}

/// Folds further `or` operands onto `left`.
pub open spec fn sp_or_rest(toks: Seq<TokenModel>, left: ExprModel, pos: int) -> Option<
    (ExprModel, int),
>
    decreases toks.len() - pos, 4int,
{
    if 0 <= pos < toks.len() && toks[pos] == TokenModel::KwOr {
        match sp_and(toks, pos + 1) {
            Some((r, p2)) => if pos + 1 < p2 <= toks.len() {
                sp_or_rest(toks, ExprModel::Or(Box::new(left), Box::new(r)), p2)
            } else {
                None
            },
            None => None,
        }
    } else {
        Some((left, pos))
    }
}

/// The expression a token stream denotes, when the whole stream parses.
pub open spec fn spec_parse_tokens(toks: Seq<TokenModel>) -> Option<ExprModel> {
    match sp_or(toks, 0) {
        Some((e, p)) => if p == toks.len() {
            Some(e)
        } else {
            None
        },
        None => None,
    }
}

/// The expression a text denotes, when it tokenizes and parses completely.
pub open spec fn spec_parse_expression(s: Seq<char>) -> Option<ExprModel> {
    match spec_tokenize(s) {
        Some(toks) => spec_parse_tokens(toks),
        None => None,
    }
}

/// A text is a valid policy expression when it denotes an expression.
pub open spec fn valid_expression(s: Seq<char>) -> bool {
    spec_parse_expression(s) is Some
}

fn parse_primary(toks: &Vec<PolicyToken>, pos: usize) -> (r: Option<(PolicyExpr, usize)>)
    requires
        pos <= toks@.len(),
    ensures
        match r {
            Some((e, p)) => sp_primary(toks@.map_values(|t: PolicyToken| t@), pos as int) == Some(
                (e@, p as int),
            ) && pos < p <= toks@.len(),
            None => sp_primary(toks@.map_values(|t: PolicyToken| t@), pos as int) is None,
        },
    decreases toks@.len() - pos, 0int,
{
    if pos >= toks.len() {
        return None;
    }
    match &toks[pos] {
        PolicyToken::Pred(p) => Some((PolicyExpr::Pred(p.clone()), pos + 1)),
        PolicyToken::LParen => {
            match parse_or(toks, pos + 1) {
                Some((e, p2)) => {
                    if p2 < toks.len() {
                        if let PolicyToken::RParen = &toks[p2] {
                            return Some((e, p2 + 1));
                        }
                    }
                    None
                },
                None => None,
            }
        },
        _ => None,
    }
}

fn parse_and_rest(toks: &Vec<PolicyToken>, left: PolicyExpr, pos: usize) -> (r: Option<
    (PolicyExpr, usize),
>)
    requires
        pos <= toks@.len(),
    ensures
        match r {
            Some((e, p)) => sp_and_rest(toks@.map_values(|t: PolicyToken| t@), left@, pos as int)
                == Some((e@, p as int)) && pos <= p <= toks@.len(),
            None => sp_and_rest(toks@.map_values(|t: PolicyToken| t@), left@, pos as int) is None,
        },
    decreases toks@.len() - pos, 3int,
{
    if pos < toks.len() {
        if let PolicyToken::KwAnd = &toks[pos] {
            return match parse_primary(toks, pos + 1) {
                Some((r2, p2)) => parse_and_rest(
                    toks,
                    PolicyExpr::And(Box::new(left), Box::new(r2)),
                    p2,
                ),
                None => None,
            };
        }
    }
    Some((left, pos))
}

fn parse_and(toks: &Vec<PolicyToken>, pos: usize) -> (r: Option<(PolicyExpr, usize)>)
    requires
        pos <= toks@.len(),
    ensures
        match r {
            Some((e, p)) => sp_and(toks@.map_values(|t: PolicyToken| t@), pos as int) == Some(
                (e@, p as int),
            ) && pos < p <= toks@.len(),
            None => sp_and(toks@.map_values(|t: PolicyToken| t@), pos as int) is None,
        },
    decreases toks@.len() - pos, 1int,
{
    match parse_primary(toks, pos) {
        Some((l, p)) => parse_and_rest(toks, l, p),
        None => None,
    }
}

fn parse_or_rest(toks: &Vec<PolicyToken>, left: PolicyExpr, pos: usize) -> (r: Option<
    (PolicyExpr, usize),
>)
    requires
        pos <= toks@.len(),
    ensures
        match r {
            Some((e, p)) => sp_or_rest(toks@.map_values(|t: PolicyToken| t@), left@, pos as int)
                == Some((e@, p as int)) && pos <= p <= toks@.len(),
            None => sp_or_rest(toks@.map_values(|t: PolicyToken| t@), left@, pos as int) is None,
        },
    decreases toks@.len() - pos, 4int,
{
    if pos < toks.len() {
        if let PolicyToken::KwOr = &toks[pos] {
            return match parse_and(toks, pos + 1) {
                Some((r2, p2)) => parse_or_rest(
                    toks,
                    PolicyExpr::Or(Box::new(left), Box::new(r2)),
                    p2,
                ),
                None => None,
            };
        }
    }
    Some((left, pos))
}

fn parse_or(toks: &Vec<PolicyToken>, pos: usize) -> (r: Option<(PolicyExpr, usize)>)
    requires
        pos <= toks@.len(),
    ensures
        match r {
            Some((e, p)) => sp_or(toks@.map_values(|t: PolicyToken| t@), pos as int) == Some(
                (e@, p as int),
            ) && pos < p <= toks@.len(),
            None => sp_or(toks@.map_values(|t: PolicyToken| t@), pos as int) is None,
        },
    decreases toks@.len() - pos, 2int,
{
    match parse_and(toks, pos) {
        Some((l, p)) => parse_or_rest(toks, l, p),
        None => None,
    }
}

/// Parses a policy expression; `None` exactly on texts the grammar refuses.
pub fn parse_policy_expression(s: &str) -> (r: Option<PolicyExpr>)
    ensures
        match r {
            Some(e) => spec_parse_expression(s@) == Some(e@),
            None => spec_parse_expression(s@) is None,
        },
{
    let toks = match tokenize(s) {
        Some(toks) => toks,
        None => {
            return None;
        },
    };
    match parse_or(&toks, 0) {
        Some((e, p)) => if p == toks.len() {
            Some(e)
        } else {
            None
        },
        None => None,
    }
}

/// Whether a text is a valid policy expression.
pub fn is_valid_expression(s: &str) -> (r: bool)
    ensures
        r == valid_expression(s@),
{
    parse_policy_expression(s).is_some()
}

/// The position of the first `=` in a predicate, scanning from `pos`.
pub open spec fn find_eq(p: Seq<char>, pos: int) -> Option<int>
    decreases p.len() - pos,
{
    if pos < 0 || pos >= p.len() {
        None
    } else if p[pos] == '=' {
        Some(pos)
    } else {
        find_eq(p, pos + 1)
    }
}

/// Whether one predicate holds of the claim's attributes: the text left of
/// the first `=` names an attribute whose value is exactly the text right of
/// it (an authority suffix such as `@A` is part of the value). A predicate
/// without `=` holds of no claim.
pub open spec fn spec_pred_holds(p: Seq<char>, attrs: Seq<(Seq<char>, Seq<char>)>) -> bool {
    match find_eq(p, 0) {
        Some(idx) => spec_lookup(attrs, p.take(idx)) == Some(p.skip(idx + 1)),
        None => false,
    }
}

/// Whether an expression holds of the claim's attributes.
pub open spec fn spec_eval(e: ExprModel, attrs: Seq<(Seq<char>, Seq<char>)>) -> bool
    decreases e,
{
    match e {
        ExprModel::Pred(p) => spec_pred_holds(p, attrs),
        ExprModel::And(l, r) => spec_eval(*l, attrs) && spec_eval(*r, attrs),
        ExprModel::Or(l, r) => spec_eval(*l, attrs) || spec_eval(*r, attrs),
    }
}

/// A scan that saw no `=` up to a frontier pins the first `=` down.
proof fn lemma_find_eq_frontier(p: Seq<char>, i: int, k: int)
    requires
        0 <= i <= k <= p.len(),
        forall|m: int| i <= m < k ==> p[m] != '=',
    ensures
        find_eq(p, i) == (if k < p.len() && p[k] == '=' {
            Some(k)
        } else {
            find_eq(p, k)
        }),
    decreases k - i,
{
    if i < k {
        lemma_find_eq_frontier(p, i + 1, k);
    }
}

fn pred_holds(p: &String, claim: &NebulaClaim) -> (r: bool)
    ensures
        r == spec_pred_holds(p@, claim.spec_attrs()),
{
    let n = p.as_str().unicode_len();
    let mut k: usize = 0;
    loop
        invariant_except_break
            0 <= k <= n,
            n == p@.len(),
            forall|m: int| 0 <= m < k ==> p@[m] != '=',
        ensures
            0 <= k < n,
            n == p@.len(),
            find_eq(p@, 0) == Some(k as int),
        decreases n - k,
    {
        if k == n {
            proof {
                lemma_find_eq_frontier(p@, 0, k as int);
            }
            return false;
        }
        if p.as_str().get_char(k) == '=' {
            proof {
                lemma_find_eq_frontier(p@, 0, k as int);
            }
            break ;
        }
        k = k + 1;
    }
    let key = p.as_str().substring_char(0, k).to_owned();
    let val = p.as_str().substring_char(k + 1, n).to_owned();
    proof {
        assert(key@ =~= p@.take(k as int));
        assert(val@ =~= p@.skip(k + 1));
    }
    match claim.attribute(&key) {
        Some(v) => *v == val,
        None => false,
    }
}

/// Evaluates an expression against a claim's attributes.
pub fn expression_allows(e: &PolicyExpr, claim: &NebulaClaim) -> (r: bool)
    ensures
        r == spec_eval(e@, claim.spec_attrs()),
    decreases *e,
{
    match e {
        PolicyExpr::Pred(p) => pred_holds(p, claim),
        PolicyExpr::And(l, r) => expression_allows(l, claim) && expression_allows(r, claim),
        PolicyExpr::Or(l, r) => expression_allows(l, claim) || expression_allows(r, claim),
    }
}

} // verus!
