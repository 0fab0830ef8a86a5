//! Lexical analysis: the input text becomes a sequence of tokens.
//!
//! Whitespace (space, tab, carriage return, line feed) separates tokens.
//! Words are matched against the reserved keywords without regard to
//! ASCII case; a word that is a keyword is never an identifier.
use vstd::prelude::*;

use crate::text::push_char;

verus! {

/// Reserved words of the query language.
#[derive(Debug, Clone, Copy, PartialEq, Eq, Structural)]
pub enum Keyword {
    Match,
    Optional,
    Where,
    Return,
    With,
    Distinct,
    Order,
    By,
    Asc,
    Ascending,
    Desc,
    Descending,
    Skip,
    Limit,
    And,
    Or,
    Xor,
    Not,
    In,
    As,
    Is,
    Null,
    True,
    False,
    Unwind,
    Delete,
    Detach,
    Starts,
    Ends,
    Contains,
}

/// Punctuation and operator symbols.
#[derive(Debug, Clone, Copy, PartialEq, Eq, Structural)]
pub enum Symbol {
    LParen,
    RParen,
    LBracket,
    RBracket,
    LBrace,
    RBrace,
    Colon,
    Comma,
    Dot,
    Pipe,
    Dash,
    Plus,
    Star,
    Slash,
    Percent,
    Eq,
    Neq,
    Lt,
    Lte,
    Gt,
    Gte,
}

/// A token. Numbers that do not fit in an `i64` are kept as `BigInt`
/// text; the parser reports them once the query is known to be
/// well-formed.
#[derive(Debug, PartialEq, Eq)]
pub enum Token {
    Ident(String),
    Kw(Keyword),
    Int(i64),
    BigInt(String),
    Float(String),
    Str(String),
    Param(String),
    Sym(Symbol),
}

pub enum SToken {
    Ident(Seq<char>),
    Kw(Keyword),
    Int(i64),
    BigInt(Seq<char>),
    Float(Seq<char>),
    Str(Seq<char>),
    Param(Seq<char>),
    Sym(Symbol),
}

impl View for Token {
    type V = SToken;

    open spec fn view(&self) -> SToken {
        match *self {
            Token::Ident(s) => SToken::Ident(s@),
            Token::Kw(k) => SToken::Kw(k),
            Token::Int(i) => SToken::Int(i),
            Token::BigInt(s) => SToken::BigInt(s@),
            Token::Float(s) => SToken::Float(s@),
            Token::Str(s) => SToken::Str(s@),
            Token::Param(s) => SToken::Param(s@),
            Token::Sym(s) => SToken::Sym(s),
        }
    }
}

/// Lower-case spelling of a keyword.
pub open spec fn kw_text(k: Keyword) -> Seq<char> {
    match k {
        Keyword::Match => seq!['m', 'a', 't', 'c', 'h'],
        Keyword::Optional => seq!['o', 'p', 't', 'i', 'o', 'n', 'a', 'l'],
        Keyword::Where => seq!['w', 'h', 'e', 'r', 'e'],
        Keyword::Return => seq!['r', 'e', 't', 'u', 'r', 'n'],
        Keyword::With => seq!['w', 'i', 't', 'h'],
        Keyword::Distinct => seq!['d', 'i', 's', 't', 'i', 'n', 'c', 't'],
        Keyword::Order => seq!['o', 'r', 'd', 'e', 'r'],
        Keyword::By => seq!['b', 'y'],
        Keyword::Asc => seq!['a', 's', 'c'],
        Keyword::Ascending => seq!['a', 's', 'c', 'e', 'n', 'd', 'i', 'n', 'g'],
        Keyword::Desc => seq!['d', 'e', 's', 'c'],
        Keyword::Descending => seq!['d', 'e', 's', 'c', 'e', 'n', 'd', 'i', 'n', 'g'],
        Keyword::Skip => seq!['s', 'k', 'i', 'p'],
        Keyword::Limit => seq!['l', 'i', 'm', 'i', 't'],
        Keyword::And => seq!['a', 'n', 'd'],
        Keyword::Or => seq!['o', 'r'],
        Keyword::Xor => seq!['x', 'o', 'r'],
        Keyword::Not => seq!['n', 'o', 't'],
        Keyword::In => seq!['i', 'n'],
        Keyword::As => seq!['a', 's'],
        Keyword::Is => seq!['i', 's'],
        Keyword::Null => seq!['n', 'u', 'l', 'l'],
        Keyword::True => seq!['t', 'r', 'u', 'e'],
        Keyword::False => seq!['f', 'a', 'l', 's', 'e'],
        Keyword::Unwind => seq!['u', 'n', 'w', 'i', 'n', 'd'],
        Keyword::Delete => seq!['d', 'e', 'l', 'e', 't', 'e'],
        Keyword::Detach => seq!['d', 'e', 't', 'a', 'c', 'h'],
        Keyword::Starts => seq!['s', 't', 'a', 'r', 't', 's'],
        Keyword::Ends => seq!['e', 'n', 'd', 's'],
        Keyword::Contains => seq!['c', 'o', 'n', 't', 'a', 'i', 'n', 's'],
    }
}

/// `a` equals the lower-case character `b`, or is its upper-case form.
pub open spec fn eq_ci(a: char, b: char) -> bool {
    a == b || ('A' <= a && a <= 'Z' && (a as u32) + 32 == (b as u32))
}

/// `w` spells `t` (given in lower case) without regard to ASCII case.
pub open spec fn ci_eq(w: Seq<char>, t: Seq<char>) -> bool {
    w.len() == t.len() && forall|k: int| 0 <= k < w.len() ==> #[trigger] eq_ci(w[k], t[k])
}

/// The keyword that the word `w` spells, if any.
pub open spec fn keyword_of(w: Seq<char>) -> Option<Keyword> {
    if ci_eq(w, kw_text(Keyword::Match)) {
        Some(Keyword::Match)
    } else if ci_eq(w, kw_text(Keyword::Optional)) {
        Some(Keyword::Optional)
    } else if ci_eq(w, kw_text(Keyword::Where)) {
        Some(Keyword::Where)
    } else if ci_eq(w, kw_text(Keyword::Return)) {
        Some(Keyword::Return)
    } else if ci_eq(w, kw_text(Keyword::With)) {
        Some(Keyword::With)
    } else if ci_eq(w, kw_text(Keyword::Distinct)) {
        Some(Keyword::Distinct)
    } else if ci_eq(w, kw_text(Keyword::Order)) {
        Some(Keyword::Order)
    } else if ci_eq(w, kw_text(Keyword::By)) {
        Some(Keyword::By)
    } else if ci_eq(w, kw_text(Keyword::Asc)) {
        Some(Keyword::Asc)
    } else if ci_eq(w, kw_text(Keyword::Ascending)) {
        Some(Keyword::Ascending)
    } else if ci_eq(w, kw_text(Keyword::Desc)) {
        Some(Keyword::Desc)
    } else if ci_eq(w, kw_text(Keyword::Descending)) {
        Some(Keyword::Descending)
    } else if ci_eq(w, kw_text(Keyword::Skip)) {
        Some(Keyword::Skip)
    } else if ci_eq(w, kw_text(Keyword::Limit)) {
        Some(Keyword::Limit)
    } else if ci_eq(w, kw_text(Keyword::And)) {
        Some(Keyword::And)
    } else if ci_eq(w, kw_text(Keyword::Or)) {
        Some(Keyword::Or)
    } else if ci_eq(w, kw_text(Keyword::Xor)) {
        Some(Keyword::Xor)
    } else if ci_eq(w, kw_text(Keyword::Not)) {
        Some(Keyword::Not)
    } else if ci_eq(w, kw_text(Keyword::In)) {
        Some(Keyword::In)
    } else if ci_eq(w, kw_text(Keyword::As)) {
        Some(Keyword::As)
    } else if ci_eq(w, kw_text(Keyword::Is)) {
        Some(Keyword::Is)
    } else if ci_eq(w, kw_text(Keyword::Null)) {
        Some(Keyword::Null)
    } else if ci_eq(w, kw_text(Keyword::True)) {
        Some(Keyword::True)
    } else if ci_eq(w, kw_text(Keyword::False)) {
        Some(Keyword::False)
    } else if ci_eq(w, kw_text(Keyword::Unwind)) {
        Some(Keyword::Unwind)
    } else if ci_eq(w, kw_text(Keyword::Delete)) {
        Some(Keyword::Delete)
    } else if ci_eq(w, kw_text(Keyword::Detach)) {
        Some(Keyword::Detach)
    } else if ci_eq(w, kw_text(Keyword::Starts)) {
        Some(Keyword::Starts)
    } else if ci_eq(w, kw_text(Keyword::Ends)) {
        Some(Keyword::Ends)
    } else if ci_eq(w, kw_text(Keyword::Contains)) {
        Some(Keyword::Contains)
    } else {
        None
    }
}

fn ci_eq_exec(s: &Vec<char>, a: usize, b: usize, t: &Vec<char>) -> (r: bool)
    requires
        a <= b <= s@.len(),
    ensures
        r == ci_eq(s@.subrange(a as int, b as int), t@),
{
    if b - a != t.len() {
        return false;
    }
    let mut k: usize = 0;
    while k < t.len()
        invariant
            a <= b <= s@.len(),
            b - a == t@.len(),
            k <= t@.len(),
            forall|j: int| 0 <= j < k ==> #[trigger] eq_ci(s@[a + j], t@[j]),
        decreases t@.len() - k,
    {
        let c = s[a + k];
        let d = t[k];
        let ok = c == d || ('A' <= c && c <= 'Z' && (c as u32) + 32 == (d as u32));
        if !ok {
            proof {
                assert(!eq_ci(s@.subrange(a as int, b as int)[k as int], t@[k as int]));
            }
            return false;
        }
        k = k + 1;
    }
    proof {
        assert forall|j: int| 0 <= j < b - a implies #[trigger] eq_ci(
            s@.subrange(a as int, b as int)[j],
            t@[j],
        ) by {
            assert(eq_ci(s@[a + j], t@[j]));
        }
    }
    true
}

fn keyword_of_exec(s: &Vec<char>, a: usize, b: usize) -> (r: Option<Keyword>)
    requires
        a <= b <= s@.len(),
    ensures
        r == keyword_of(s@.subrange(a as int, b as int)),
{
    if ci_eq_exec(s, a, b, &vec!['m', 'a', 't', 'c', 'h']) {
        return Some(Keyword::Match);
    }
    if ci_eq_exec(s, a, b, &vec!['o', 'p', 't', 'i', 'o', 'n', 'a', 'l']) {
        return Some(Keyword::Optional);
    }
    if ci_eq_exec(s, a, b, &vec!['w', 'h', 'e', 'r', 'e']) {
        return Some(Keyword::Where);
    }
    if ci_eq_exec(s, a, b, &vec!['r', 'e', 't', 'u', 'r', 'n']) {
        return Some(Keyword::Return);
    }
    if ci_eq_exec(s, a, b, &vec!['w', 'i', 't', 'h']) {
        return Some(Keyword::With);
    }
    if ci_eq_exec(s, a, b, &vec!['d', 'i', 's', 't', 'i', 'n', 'c', 't']) {
        return Some(Keyword::Distinct);
    }
    if ci_eq_exec(s, a, b, &vec!['o', 'r', 'd', 'e', 'r']) {
        return Some(Keyword::Order);
    }
    if ci_eq_exec(s, a, b, &vec!['b', 'y']) {
        return Some(Keyword::By);
    }
    if ci_eq_exec(s, a, b, &vec!['a', 's', 'c']) {
        return Some(Keyword::Asc);
    }
    if ci_eq_exec(s, a, b, &vec!['a', 's', 'c', 'e', 'n', 'd', 'i', 'n', 'g']) {
        return Some(Keyword::Ascending);
    }
    if ci_eq_exec(s, a, b, &vec!['d', 'e', 's', 'c']) {
        return Some(Keyword::Desc);
    }
    if ci_eq_exec(s, a, b, &vec!['d', 'e', 's', 'c', 'e', 'n', 'd', 'i', 'n', 'g']) {
        return Some(Keyword::Descending);
    }
    if ci_eq_exec(s, a, b, &vec!['s', 'k', 'i', 'p']) {
        return Some(Keyword::Skip);
    }
    if ci_eq_exec(s, a, b, &vec!['l', 'i', 'm', 'i', 't']) {
        return Some(Keyword::Limit);
    }
    if ci_eq_exec(s, a, b, &vec!['a', 'n', 'd']) {
        return Some(Keyword::And);
    }
    if ci_eq_exec(s, a, b, &vec!['o', 'r']) {
        return Some(Keyword::Or);
    }
    if ci_eq_exec(s, a, b, &vec!['x', 'o', 'r']) {
        return Some(Keyword::Xor);
    }
    if ci_eq_exec(s, a, b, &vec!['n', 'o', 't']) {
        return Some(Keyword::Not);
    }
    if ci_eq_exec(s, a, b, &vec!['i', 'n']) {
        return Some(Keyword::In);
    }
    if ci_eq_exec(s, a, b, &vec!['a', 's']) {
        return Some(Keyword::As);
    }
    if ci_eq_exec(s, a, b, &vec!['i', 's']) {
        return Some(Keyword::Is);
    }
    if ci_eq_exec(s, a, b, &vec!['n', 'u', 'l', 'l']) {
        return Some(Keyword::Null);
    }
    if ci_eq_exec(s, a, b, &vec!['t', 'r', 'u', 'e']) {
        return Some(Keyword::True);
    }
    if ci_eq_exec(s, a, b, &vec!['f', 'a', 'l', 's', 'e']) {
        return Some(Keyword::False);
    }
    if ci_eq_exec(s, a, b, &vec!['u', 'n', 'w', 'i', 'n', 'd']) {
        return Some(Keyword::Unwind);
    }
    if ci_eq_exec(s, a, b, &vec!['d', 'e', 'l', 'e', 't', 'e']) {
        return Some(Keyword::Delete);
    }
    if ci_eq_exec(s, a, b, &vec!['d', 'e', 't', 'a', 'c', 'h']) {
        return Some(Keyword::Detach);
    }
    if ci_eq_exec(s, a, b, &vec!['s', 't', 'a', 'r', 't', 's']) {
        return Some(Keyword::Starts);
    }
    if ci_eq_exec(s, a, b, &vec!['e', 'n', 'd', 's']) {
        return Some(Keyword::Ends);
    }
    if ci_eq_exec(s, a, b, &vec!['c', 'o', 'n', 't', 'a', 'i', 'n', 's']) {
        return Some(Keyword::Contains);
    }
    None
}

pub open spec fn is_ws(c: char) -> bool {
    c == ' ' || c == '\t' || c == '\n' || c == '\r'
}

pub open spec fn is_alpha(c: char) -> bool {
    ('a' <= c && c <= 'z') || ('A' <= c && c <= 'Z')
}

pub open spec fn is_digit(c: char) -> bool {
    '0' <= c && c <= '9'
}

pub open spec fn is_word(c: char) -> bool {
    is_alpha(c) || is_digit(c) || c == '_'
}

/// Number of whitespace characters starting at `i`.
pub open spec fn ws_len(s: Seq<char>, i: nat) -> nat
    decreases s.len() - i,
{
    if i < s.len() && is_ws(s[i as int]) {
        1 + ws_len(s, i + 1)
    } else {
        0
    }
}

/// Number of word characters starting at `i`.
pub open spec fn word_len(s: Seq<char>, i: nat) -> nat
    decreases s.len() - i,
{
    if i < s.len() && is_word(s[i as int]) {
        1 + word_len(s, i + 1)
    } else {
        0
    }
}

/// Number of decimal digits starting at `i`.
pub open spec fn digit_len(s: Seq<char>, i: nat) -> nat
    decreases s.len() - i,
{
    if i < s.len() && is_digit(s[i as int]) {
        1 + digit_len(s, i + 1)
    } else {
        0
    }
}

/// Number of characters from `i` up to the next `q`, if there is one.
pub open spec fn quote_len(s: Seq<char>, i: nat, q: char) -> Option<nat>
    decreases s.len() - i,
{
    if i >= s.len() {
        None
    } else if s[i as int] == q {
        Some(0)
    } else {
        match quote_len(s, i + 1, q) {
            Some(n) => Some(n + 1),
            None => None,
        }
    }
}

pub open spec fn digit_value(c: char) -> nat {
    ((c as u32) - ('0' as u32)) as nat
}

/// Value of a string of decimal digits.
pub open spec fn dec_value(w: Seq<char>) -> nat
    decreases w.len(),
{
    if w.len() == 0 {
        0
    } else {
        10 * dec_value(w.subrange(0, w.len() - 1)) + digit_value(w[w.len() - 1])
    }
}

pub open spec fn single_symbol(c: char) -> Option<Symbol> {
    if c == '(' {
        Some(Symbol::LParen)
    } else if c == ')' {
        Some(Symbol::RParen)
    } else if c == '[' {
        Some(Symbol::LBracket)
    } else if c == ']' {
        Some(Symbol::RBracket)
    } else if c == '{' {
        Some(Symbol::LBrace)
    } else if c == '}' {
        Some(Symbol::RBrace)
    } else if c == ':' {
        Some(Symbol::Colon)
    } else if c == ',' {
        Some(Symbol::Comma)
    } else if c == '.' {
        Some(Symbol::Dot)
    } else if c == '|' {
        Some(Symbol::Pipe)
    } else if c == '-' {
        Some(Symbol::Dash)
    } else if c == '+' {
        Some(Symbol::Plus)
    } else if c == '*' {
        Some(Symbol::Star)
    } else if c == '/' {
        Some(Symbol::Slash)
    } else if c == '%' {
        Some(Symbol::Percent)
    } else if c == '=' {
        Some(Symbol::Eq)
    } else {
        None
    }
}

/// The token that starts at `i` (a non-whitespace position) and its
/// length in characters.
pub open spec fn next_token(s: Seq<char>, i: nat) -> Option<(SToken, nat)> {
    let c = s[i as int];
    let ii = i as int;
    if is_alpha(c) || c == '_' {
        let n = word_len(s, i);
        let w = s.subrange(ii, ii + n);
        match keyword_of(w) {
            Some(k) => Some((SToken::Kw(k), n)),
            None => Some((SToken::Ident(w), n)),
        }
    } else if is_digit(c) {
        let n = digit_len(s, i);
        if ii + n + 1 < s.len() && s[ii + n] == '.' && is_digit(s[ii + n + 1]) {
            let m = digit_len(s, (ii + n + 1) as nat);
            Some((SToken::Float(s.subrange(ii, ii + n + 1 + m)), n + 1 + m))
        } else {
            let w = s.subrange(ii, ii + n);
            if dec_value(w) <= i64::MAX {
                Some((SToken::Int(dec_value(w) as i64), n))
            } else {
                Some((SToken::BigInt(w), n))
            }
        }
    } else if c == '\'' || c == '"' {
        match quote_len(s, i + 1, c) {
            Some(m) => Some((SToken::Str(s.subrange(ii + 1, ii + 1 + m)), m + 2)),
            None => None,
        }
    } else if c == '$' {
        let n = word_len(s, i + 1);
        if n == 0 {
            None
        } else {
            Some((SToken::Param(s.subrange(ii + 1, ii + 1 + n)), n + 1))
        }
    } else if c == '<' {
        if ii + 1 < s.len() && s[ii + 1] == '>' {
            Some((SToken::Sym(Symbol::Neq), 2))
        } else if ii + 1 < s.len() && s[ii + 1] == '=' {
            Some((SToken::Sym(Symbol::Lte), 2))
        } else {
            Some((SToken::Sym(Symbol::Lt), 1))
        }
    } else if c == '>' {
        if ii + 1 < s.len() && s[ii + 1] == '=' {
            Some((SToken::Sym(Symbol::Gte), 2))
        } else {
            Some((SToken::Sym(Symbol::Gt), 1))
        }
    } else {
        match single_symbol(c) {
            Some(sym) => Some((SToken::Sym(sym), 1)),
            None => None,
        }
    }
}

/// Tokens of `s` from position `i` on, each with the position where it
/// starts; or the position of the first character that starts no token.
pub open spec fn lex_from(s: Seq<char>, i: nat) -> Result<Seq<(SToken, nat)>, nat>
    decreases (if i <= s.len() { s.len() - i } else { 0 }),
{
    let j = i + ws_len(s, i);
    if j >= s.len() {
        Ok(Seq::empty())
    } else {
        match next_token(s, j) {
            None => Err(j),
            Some((tok, n)) => if n == 0 {
                Err(j)
            } else {
                match lex_from(s, j + n) {
                    Ok(rest) => Ok(seq![(tok, j)] + rest),
                    Err(p) => Err(p),
                }
            },
        }
    }
}

/// Tokens of the whole text.
pub open spec fn spec_tokenize(s: Seq<char>) -> Result<Seq<(SToken, nat)>, nat> {
    lex_from(s, 0)
}

/// Token models paired with their start positions.
pub open spec fn token_pairs(t: Seq<Token>, o: Seq<usize>) -> Seq<(SToken, nat)> {
    Seq::new(t.len(), |k: int| (t[k]@, o[k] as nat))
}

/// The characters `s[a..b]` as a `String`.
pub(crate) fn string_of(s: &Vec<char>, a: usize, b: usize) -> (r: String)
    requires
        a <= b <= s@.len(),
    ensures
        r@ == s@.subrange(a as int, b as int),
{
    let mut out = String::new();
    let mut k = a;
    while k < b
        invariant
            a <= k <= b <= s@.len(),
            out@ == s@.subrange(a as int, k as int),
        decreases b - k,
    {
        push_char(&mut out, s[k]);
        k = k + 1;
        proof {
            assert(out@ =~= s@.subrange(a as int, k as int));
        }
    }
    out
}

fn is_ws_exec(c: char) -> (r: bool)
    ensures
        r == is_ws(c),
{
    c == ' ' || c == '\t' || c == '\n' || c == '\r'
}

fn is_alpha_exec(c: char) -> (r: bool)
    ensures
        r == is_alpha(c),
{
    ('a' <= c && c <= 'z') || ('A' <= c && c <= 'Z')
}

fn is_digit_exec(c: char) -> (r: bool)
    ensures
        r == is_digit(c),
{
    '0' <= c && c <= '9'
}

fn is_word_exec(c: char) -> (r: bool)
    ensures
        r == is_word(c),
{
    is_alpha_exec(c) || is_digit_exec(c) || c == '_'
}

fn ws_len_exec(s: &Vec<char>, i: usize) -> (r: usize)
    requires
        i <= s@.len(),
    ensures
        r == ws_len(s@, i as nat),
        i + r <= s@.len(),
{
    let mut k = i;
    while k < s.len() && is_ws_exec(s[k])
        invariant
            i <= k <= s@.len(),
            ws_len(s@, i as nat) == (k - i) + ws_len(s@, k as nat),
        decreases s@.len() - k,
    {
        k = k + 1;
    }
    k - i
}

fn word_len_exec(s: &Vec<char>, i: usize) -> (r: usize)
    requires
        i <= s@.len(),
    ensures
        r == word_len(s@, i as nat),
        i + r <= s@.len(),
{
    let mut k = i;
    while k < s.len() && is_word_exec(s[k])
        invariant
            i <= k <= s@.len(),
            word_len(s@, i as nat) == (k - i) + word_len(s@, k as nat),
        decreases s@.len() - k,
    {
        k = k + 1;
    }
    k - i
}

fn digit_len_exec(s: &Vec<char>, i: usize) -> (r: usize)
    requires
        i <= s@.len(),
    ensures
        r == digit_len(s@, i as nat),
        i + r <= s@.len(),
{
    let mut k = i;
    while k < s.len() && is_digit_exec(s[k])
        invariant
            i <= k <= s@.len(),
            digit_len(s@, i as nat) == (k - i) + digit_len(s@, k as nat),
        decreases s@.len() - k,
    {
        k = k + 1;
    }
    k - i
}

fn quote_len_exec(s: &Vec<char>, i: usize, q: char) -> (r: Option<usize>)
    requires
        i <= s@.len(),
    ensures
        match r {
            Some(n) => quote_len(s@, i as nat, q) == Some(n as nat) && i + n < s@.len(),
            None => quote_len(s@, i as nat, q) is None,
        },
{
    let mut k = i;
    while k < s.len()
        invariant
            i <= k <= s@.len(),
            quote_len(s@, i as nat, q) == (match quote_len(s@, k as nat, q) {
                Some(n) => Some((n + (k - i)) as nat),
                None => None::<nat>,
            }),
        decreases s@.len() - k,
    {
        if s[k] == q {
            return Some(k - i);
        }
        k = k + 1;
    }
    None
}

/// Value of the digits `s[a..b]`, or `None` when it exceeds `i64::MAX`.
fn dec_value_exec(s: &Vec<char>, a: usize, b: usize) -> (r: Option<i64>)
    requires
        a <= b <= s@.len(),
        forall|k: int| a <= k < b ==> #[trigger] is_digit(s@[k]),
    ensures
        match r {
            Some(v) => v >= 0 && v as nat == dec_value(s@.subrange(a as int, b as int)),
            None => dec_value(s@.subrange(a as int, b as int)) > i64::MAX,
        },
{
    let mut acc: i64 = 0;
    let mut k = a;
    while k < b
        invariant
            a <= k <= b <= s@.len(),
            forall|j: int| a <= j < b ==> #[trigger] is_digit(s@[j]),
            acc >= 0,
            acc as nat == dec_value(s@.subrange(a as int, k as int)),
        decreases b - k,
    {
        let c = s[k];
        assert(is_digit(s@[k as int]));
        let d = ((c as u32) - ('0' as u32)) as i64;
        proof {
            assert(s@.subrange(a as int, k + 1).subrange(0, k - a) =~= s@.subrange(a as int, k as int));
        }
        if acc > (i64::MAX - d) / 10 {
            proof {
                lemma_dec_value_grows(s@, a as int, k as int + 1, b as int);
            }
            return None;
        }
        acc = acc * 10 + d;
        k = k + 1;
    }
    Some(acc)
}

proof fn lemma_dec_value_grows(s: Seq<char>, a: int, k: int, b: int)
    requires
        0 <= a <= k <= b <= s.len(),
    ensures
        dec_value(s.subrange(a, k)) <= dec_value(s.subrange(a, b)),
    decreases b - k,
{
    if k < b {
        lemma_dec_value_grows(s, a, k + 1, b);
        assert(s.subrange(a, k + 1).subrange(0, k - a) =~= s.subrange(a, k));
    }
}

fn single_symbol_exec(c: char) -> (r: Option<Symbol>)
    ensures
        r == single_symbol(c),
{
    if c == '(' {
        Some(Symbol::LParen)
    } else if c == ')' {
        Some(Symbol::RParen)
    } else if c == '[' {
        Some(Symbol::LBracket)
    } else if c == ']' {
        Some(Symbol::RBracket)
    } else if c == '{' {
        Some(Symbol::LBrace)
    } else if c == '}' {
        Some(Symbol::RBrace)
    } else if c == ':' {
        Some(Symbol::Colon)
    } else if c == ',' {
        Some(Symbol::Comma)
    } else if c == '.' {
        Some(Symbol::Dot)
    } else if c == '|' {
        Some(Symbol::Pipe)
    } else if c == '-' {
        Some(Symbol::Dash)
    } else if c == '+' {
        Some(Symbol::Plus)
    } else if c == '*' {
        Some(Symbol::Star)
    } else if c == '/' {
        Some(Symbol::Slash)
    } else if c == '%' {
        Some(Symbol::Percent)
    } else if c == '=' {
        Some(Symbol::Eq)
    } else {
        None
    }
}

fn next_token_exec(s: &Vec<char>, i: usize) -> (r: Option<(Token, usize)>)
    requires
        i < s@.len(),
    ensures
        match r {
            Some((t, n)) => next_token(s@, i as nat) == Some((t@, n as nat)) && i + n <= s@.len(),
            None => next_token(s@, i as nat) is None,
        },
{
    let slen = s.len();
    let c = s[i];
    if is_alpha_exec(c) || c == '_' {
        let n = word_len_exec(s, i);
        match keyword_of_exec(s, i, i + n) {
            Some(k) => Some((Token::Kw(k), n)),
            None => Some((Token::Ident(string_of(s, i, i + n)), n)),
        }
    } else if is_digit_exec(c) {
        let n = digit_len_exec(s, i);
        if slen - i - n > 1 && s[i + n] == '.' && is_digit_exec(s[i + n + 1]) {
            let m = digit_len_exec(s, i + n + 1);
            Some((Token::Float(string_of(s, i, i + n + 1 + m)), n + 1 + m))
        } else {
            proof {
                lemma_digit_run(s@, i as nat);
            }
            match dec_value_exec(s, i, i + n) {
                Some(v) => Some((Token::Int(v), n)),
                None => Some((Token::BigInt(string_of(s, i, i + n)), n)),
            }
        }
    } else if c == '\'' || c == '"' {
        match quote_len_exec(s, i + 1, c) {
            Some(m) => Some((Token::Str(string_of(s, i + 1, i + 1 + m)), m + 2)),
            None => None,
        }
    } else if c == '$' {
        let n = word_len_exec(s, i + 1);
        if n == 0 {
            None
        } else {
            Some((Token::Param(string_of(s, i + 1, i + 1 + n)), n + 1))
        }
    } else if c == '<' {
        if i + 1 < s.len() && s[i + 1] == '>' {
            Some((Token::Sym(Symbol::Neq), 2))
        } else if i + 1 < s.len() && s[i + 1] == '=' {
            Some((Token::Sym(Symbol::Lte), 2))
        } else {
            Some((Token::Sym(Symbol::Lt), 1))
        }
    } else if c == '>' {
        if i + 1 < s.len() && s[i + 1] == '=' {
            Some((Token::Sym(Symbol::Gte), 2))
        } else {
            Some((Token::Sym(Symbol::Gt), 1))
        }
    } else {
        match single_symbol_exec(c) {
            Some(sym) => Some((Token::Sym(sym), 1)),
            None => None,
        }
    }
}

proof fn lemma_digit_run(s: Seq<char>, i: nat)
    ensures
        forall|k: int| i <= k < i + digit_len(s, i) ==> #[trigger] is_digit(s[k]),
    decreases s.len() - i,
{
    if i < s.len() && is_digit(s[i as int]) {
        lemma_digit_run(s, i + 1);
    }
}

/// Splits `s` into tokens with their start positions, or returns the
/// position of the first character that starts no token.
pub fn tokenize(s: &Vec<char>) -> (r: Result<(Vec<Token>, Vec<usize>), usize>)
    ensures
        match r {
            Ok((t, o)) => spec_tokenize(s@) == Ok::<Seq<(SToken, nat)>, nat>(token_pairs(t@, o@))
                && t@.len() == o@.len(),
            Err(p) => spec_tokenize(s@) == Err::<Seq<(SToken, nat)>, nat>(p as nat),
        },
{
    let mut toks: Vec<Token> = Vec::new();
    let mut offs: Vec<usize> = Vec::new();
    let mut pos: usize = 0;
    loop
        invariant
            pos <= s@.len(),
            toks@.len() == offs@.len(),
            lex_from(s@, 0) == (match lex_from(s@, pos as nat) {
                Ok(rest) => Ok(token_pairs(toks@, offs@) + rest),
                Err(p) => Err(p),
            }),
        decreases s@.len() - pos,
    {
        let slen = s.len();
        let j = pos + ws_len_exec(s, pos);
        if j >= s.len() {
            proof {
                assert(token_pairs(toks@, offs@) + Seq::<(SToken, nat)>::empty() =~= token_pairs(
                    toks@,
                    offs@,
                ));
            }
            return Ok((toks, offs));
        }
        match next_token_exec(s, j) {
            None => {
                return Err(j);
            },
            Some((tok, n)) => {
                if n == 0 {
                    return Err(j);
                }
                let ghost old_pairs = token_pairs(toks@, offs@);
                let ghost tm = tok@;
                toks.push(tok);
                offs.push(j);
                proof {
                    assert(token_pairs(toks@, offs@) =~= old_pairs + seq![(tm, j as nat)]);
                    match lex_from(s@, (j + n) as nat) {
                        Ok(rest) => {
                            assert(old_pairs + (seq![(tm, j as nat)] + rest) =~= (old_pairs
                                + seq![(tm, j as nat)]) + rest);
                        },
                        Err(_) => {},
                    }
                }
                pos = j + n;
            },
        }
    }
}


/// Each punctuation character is the symbol it looks like; `<` and `>`
/// followed by `=`, and `<>`, are the two-character comparisons.
pub proof fn lemma_symbol_tokens(s: Seq<char>, i: nat)
    requires
        i < s.len(),
    ensures
        s[i as int] == '(' ==> next_token(s, i) == Some((SToken::Sym(Symbol::LParen), 1nat)),
        s[i as int] == ')' ==> next_token(s, i) == Some((SToken::Sym(Symbol::RParen), 1nat)),
        s[i as int] == '[' ==> next_token(s, i) == Some((SToken::Sym(Symbol::LBracket), 1nat)),
        s[i as int] == ']' ==> next_token(s, i) == Some((SToken::Sym(Symbol::RBracket), 1nat)),
        s[i as int] == '{' ==> next_token(s, i) == Some((SToken::Sym(Symbol::LBrace), 1nat)),
        s[i as int] == '}' ==> next_token(s, i) == Some((SToken::Sym(Symbol::RBrace), 1nat)),
        s[i as int] == ':' ==> next_token(s, i) == Some((SToken::Sym(Symbol::Colon), 1nat)),
        s[i as int] == ',' ==> next_token(s, i) == Some((SToken::Sym(Symbol::Comma), 1nat)),
        s[i as int] == '.' ==> next_token(s, i) == Some((SToken::Sym(Symbol::Dot), 1nat)),
        s[i as int] == '|' ==> next_token(s, i) == Some((SToken::Sym(Symbol::Pipe), 1nat)),
        s[i as int] == '-' ==> next_token(s, i) == Some((SToken::Sym(Symbol::Dash), 1nat)),
        s[i as int] == '+' ==> next_token(s, i) == Some((SToken::Sym(Symbol::Plus), 1nat)),
        s[i as int] == '*' ==> next_token(s, i) == Some((SToken::Sym(Symbol::Star), 1nat)),
        s[i as int] == '/' ==> next_token(s, i) == Some((SToken::Sym(Symbol::Slash), 1nat)),
        s[i as int] == '%' ==> next_token(s, i) == Some((SToken::Sym(Symbol::Percent), 1nat)),
        s[i as int] == '=' ==> next_token(s, i) == Some((SToken::Sym(Symbol::Eq), 1nat)),
        s[i as int] == '<' && i + 1 < s.len() && s[i + 1int] == '>' ==> next_token(s, i) == Some(
            (SToken::Sym(Symbol::Neq), 2nat),
        ),
        s[i as int] == '<' && i + 1 < s.len() && s[i + 1int] == '=' ==> next_token(s, i) == Some(
            (SToken::Sym(Symbol::Lte), 2nat),
        ),
        s[i as int] == '<' && !(i + 1 < s.len() && (s[i + 1int] == '>' || s[i + 1int] == '=')) ==> next_token(
            s,
            i,
        ) == Some((SToken::Sym(Symbol::Lt), 1nat)),
        s[i as int] == '>' && i + 1 < s.len() && s[i + 1int] == '=' ==> next_token(s, i) == Some(
            (SToken::Sym(Symbol::Gte), 2nat),
        ),
        s[i as int] == '>' && !(i + 1 < s.len() && s[i + 1int] == '=') ==> next_token(s, i) == Some(
            (SToken::Sym(Symbol::Gt), 1nat),
        ),
{
}

/// A word is the keyword it spells without regard to case, else an
/// identifier with its own spelling; a `$` before a word makes a parameter.
pub proof fn lemma_word_tokens(s: Seq<char>, i: nat)
    requires
        i < s.len(),
    ensures
        (is_alpha(s[i as int]) || s[i as int] == '_') ==> next_token(s, i) == Some(
            (
                match keyword_of(s.subrange(i as int, i + word_len(s, i) as int)) {
                    Some(k) => SToken::Kw(k),
                    None => SToken::Ident(s.subrange(i as int, i + word_len(s, i) as int)),
                },
                word_len(s, i),
            ),
        ),
        s[i as int] == '$' && word_len(s, i + 1) > 0 ==> next_token(s, i) == Some(
            (SToken::Param(s.subrange(i + 1int, i + 1int + word_len(s, i + 1))), word_len(s, i + 1) + 1),
        ),
        forall|k: Keyword| ci_eq(#[trigger] s.subrange(i as int, i + word_len(s, i) as int), kw_text(k))
            ==> keyword_of(s.subrange(i as int, i + word_len(s, i) as int)) is Some,
{
}

// ---- letter case of keywords ---------------------------------------------------------------

/// Code of `c` with an ASCII upper-case letter taken to lower case.
pub open spec fn lower_code(c: char) -> u32 {
    if 'A' <= c && c <= 'Z' {
        ((c as u32) + 32) as u32
    } else {
        c as u32
    }
}

/// `a` and `b` are the same character, or the same letter in either case.
pub open spec fn case_agree(a: char, b: char) -> bool {
    a == b || (is_alpha(a) && is_alpha(b) && lower_code(a) == lower_code(b))
}

/// Position `k` lies inside the text of a keyword token of `ps`.
pub open spec fn in_keyword(ps: Seq<(SToken, nat)>, k: int) -> bool {
    exists|m: int|
        0 <= m < ps.len() && (#[trigger] ps[m]).0 is Kw && ps[m].1 <= k && k < ps[m].1
            + kw_text(ps[m].0->Kw_0).len()
}

/// From position `i` on, `t` differs from `s` only in the letter case of
/// characters inside the keywords of `ps`.
pub open spec fn case_variant_from(s: Seq<char>, t: Seq<char>, i: nat, ps: Seq<(SToken, nat)>) -> bool {
    &&& s.len() == t.len()
    &&& forall|k: int|
        i <= k < s.len() && #[trigger] s[k] != t[k] ==> in_keyword(ps, k) && case_agree(s[k], t[k])
}

/// `s` is split into tokens, and `t` differs from `s` only in the letter case
/// of characters that belong to keywords.
pub open spec fn keyword_case_variant(s: Seq<char>, t: Seq<char>) -> bool {
    &&& spec_tokenize(s) is Ok
    &&& case_variant_from(s, t, 0, spec_tokenize(s)->Ok_0)
}

/// No character of `l` is an upper-case letter.
pub open spec fn all_lower(l: Seq<char>) -> bool {
    forall|k: int| 0 <= k < l.len() ==> !('A' <= #[trigger] l[k] && l[k] <= 'Z')
}

proof fn lemma_kw_text_lower(k: Keyword)
    ensures
        all_lower(kw_text(k)),
{
    let l = kw_text(k);
    assert forall|i: int| 0 <= i < l.len() implies !('A' <= #[trigger] l[i] && l[i] <= 'Z') by {
        match k {
            Keyword::Match => {},
            Keyword::Optional => {},
            Keyword::Where => {},
            Keyword::Return => {},
            Keyword::With => {},
            Keyword::Distinct => {},
            Keyword::Order => {},
            Keyword::By => {},
            Keyword::Asc => {},
            Keyword::Ascending => {},
            Keyword::Desc => {},
            Keyword::Descending => {},
            Keyword::Skip => {},
            Keyword::Limit => {},
            Keyword::And => {},
            Keyword::Or => {},
            Keyword::Xor => {},
            Keyword::Not => {},
            Keyword::In => {},
            Keyword::As => {},
            Keyword::Is => {},
            Keyword::Null => {},
            Keyword::True => {},
            Keyword::False => {},
            Keyword::Unwind => {},
            Keyword::Delete => {},
            Keyword::Detach => {},
            Keyword::Starts => {},
            Keyword::Ends => {},
            Keyword::Contains => {},
        }
    }
}

proof fn lemma_eq_ci_case(a: char, b: char, c: char)
    requires
        case_agree(a, b),
        !('A' <= c && c <= 'Z'),
    ensures
        eq_ci(a, c) == eq_ci(b, c),
{
}

proof fn lemma_ci_eq_case(w: Seq<char>, v: Seq<char>, l: Seq<char>)
    requires
        w.len() == v.len(),
        forall|k: int| 0 <= k < w.len() ==> case_agree(#[trigger] w[k], v[k]),
        all_lower(l),
    ensures
        ci_eq(w, l) == ci_eq(v, l),
{
    assert forall|k: int| 0 <= k < w.len() && k < l.len() implies eq_ci(w[k], l[k]) == #[trigger] eq_ci(
        v[k],
        l[k],
    ) by {
        lemma_eq_ci_case(w[k], v[k], l[k]);
    }
    if ci_eq(w, l) {
        assert forall|k: int| 0 <= k < v.len() implies #[trigger] eq_ci(v[k], l[k]) by {
            assert(eq_ci(w[k], l[k]));
        }
    }
    if ci_eq(v, l) {
        assert forall|k: int| 0 <= k < w.len() implies #[trigger] eq_ci(w[k], l[k]) by {
            assert(eq_ci(v[k], l[k]));
        }
    }
}

proof fn lemma_keyword_of_case(w: Seq<char>, v: Seq<char>)
    requires
        w.len() == v.len(),
        forall|k: int| 0 <= k < w.len() ==> case_agree(#[trigger] w[k], v[k]),
    ensures
        keyword_of(w) == keyword_of(v),
        keyword_of(w) is Some ==> w.len() == kw_text(keyword_of(w)->Some_0).len(),
{
    assert forall|kw: Keyword| ci_eq(w, #[trigger] kw_text(kw)) == ci_eq(v, kw_text(kw)) by {
        lemma_kw_text_lower(kw);
        lemma_ci_eq_case(w, v, kw_text(kw));
    }
}

/// Characters of `s` and `t` agree in case from `i` on.
pub open spec fn case_agree_from(s: Seq<char>, t: Seq<char>, i: nat) -> bool {
    &&& s.len() == t.len()
    &&& forall|k: int| i <= k < s.len() ==> case_agree(#[trigger] s[k], t[k])
}

proof fn lemma_runs_case(s: Seq<char>, t: Seq<char>, i: nat)
    requires
        case_agree_from(s, t, i),
    ensures
        ws_len(s, i) == ws_len(t, i),
        word_len(s, i) == word_len(t, i),
        digit_len(s, i) == digit_len(t, i),
    decreases s.len() - i,
{
    if i < s.len() {
        assert(case_agree(s[i as int], t[i as int]));
        lemma_runs_case(s, t, i + 1);
    }
}

proof fn lemma_runs_bound(s: Seq<char>, i: nat)
    requires
        i <= s.len(),
    ensures
        i + ws_len(s, i) <= s.len(),
        i + word_len(s, i) <= s.len(),
        i + digit_len(s, i) <= s.len(),
    decreases s.len() - i,
{
    if i < s.len() {
        lemma_runs_bound(s, i + 1);
    }
}

proof fn lemma_quote_bound(s: Seq<char>, i: nat, q: char)
    requires
        quote_len(s, i, q) is Some,
    ensures
        i + quote_len(s, i, q)->Some_0 < s.len(),
    decreases s.len() - i,
{
    if s[i as int] != q {
        lemma_quote_bound(s, i + 1, q);
    }
}

proof fn lemma_next_token_bound(s: Seq<char>, j: nat)
    requires
        j < s.len(),
        next_token(s, j) is Some,
    ensures
        j + next_token(s, j)->Some_0.1 <= s.len(),
{
    lemma_runs_bound(s, j);
    lemma_runs_bound(s, j + 1);
    let c = s[j as int];
    if is_digit(c) {
        let n = digit_len(s, j);
        if j + n + 1 < s.len() {
            lemma_runs_bound(s, (j + n + 1) as nat);
        }
    } else if c == '\'' || c == '"' {
        lemma_quote_bound(s, j + 1, c);
    }
}

proof fn lemma_quote_same(s: Seq<char>, t: Seq<char>, i: nat, q: char, m: nat)
    requires
        s.len() == t.len(),
        quote_len(s, i, q) == Some(m),
        forall|k: int| i <= k <= i + m ==> #[trigger] s[k] == t[k],
    ensures
        quote_len(t, i, q) == Some(m),
    decreases s.len() - i,
{
    assert(s[i as int] == t[i as int]);
    if s[i as int] != q {
        lemma_quote_same(s, t, i + 1, q, (m - 1) as nat);
    }
}

proof fn lemma_lex_starts(s: Seq<char>, i: nat)
    requires
        lex_from(s, i) is Ok,
    ensures
        forall|m: int|
            0 <= m < lex_from(s, i)->Ok_0.len() ==> #[trigger] lex_from(s, i)->Ok_0[m].1 >= i,
    decreases (if i <= s.len() { s.len() - i } else { 0 }),
{
    let j = i + ws_len(s, i);
    if j < s.len() {
        let (tok, n) = next_token(s, j)->Some_0;
        lemma_lex_starts(s, j + n);
        let rest = lex_from(s, j + n)->Ok_0;
        assert forall|m: int| 0 <= m < lex_from(s, i)->Ok_0.len() implies #[trigger] lex_from(
            s,
            i,
        )->Ok_0[m].1 >= i by {
            if m > 0 {
                assert(lex_from(s, i)->Ok_0[m] == rest[m - 1]);
            }
        }
    }
}

proof fn lemma_lex_case(s: Seq<char>, t: Seq<char>, i: nat)
    requires
        i <= s.len(),
        lex_from(s, i) is Ok,
        case_variant_from(s, t, i, lex_from(s, i)->Ok_0),
    ensures
        lex_from(t, i) == lex_from(s, i),
    decreases s.len() - i,
{
    let ps = lex_from(s, i)->Ok_0;
    assert(case_agree_from(s, t, i)) by {
        assert forall|k: int| i <= k < s.len() implies case_agree(#[trigger] s[k], t[k]) by {
            if s[k] != t[k] {
                assert(in_keyword(ps, k));
            }
        }
    }
    lemma_runs_case(s, t, i);
    let j = i + ws_len(s, i);
    if j < s.len() {
        let (tok, n) = next_token(s, j)->Some_0;
        let rest = lex_from(s, j + n)->Ok_0;
        assert(ps == seq![(tok, j)] + rest);
        lemma_lex_starts(s, j + n);
        lemma_next_token_bound(s, j);
        let ii = j as int;
        // Inside the first token, a character that changed lies in a keyword.
        assert forall|k: int| j <= k < j + n && s[k] != t[k] implies tok is Kw by {
            assert(in_keyword(ps, k));
            let m = choose|m: int|
                0 <= m < ps.len() && (#[trigger] ps[m]).0 is Kw && ps[m].1 <= k && k < ps[m].1
                    + kw_text(ps[m].0->Kw_0).len();
            if m > 0 {
                assert(ps[m] == rest[m - 1]);
            }
        }
        lemma_runs_case(s, t, j);
        lemma_runs_case(s, t, j + 1);
        let c = s[ii];
        assert(case_agree(c, t[ii]));
        if is_alpha(c) || c == '_' {
            let w = s.subrange(ii, ii + n);
            let v = t.subrange(ii, ii + n);
            lemma_keyword_of_case(w, v);
            if keyword_of(w) is None {
                assert(w =~= v);
            }
        } else if is_digit(c) {
            let d = digit_len(s, j);
            lemma_runs_case(s, t, (ii + d + 1) as nat);
            if ii + d < s.len() {
                assert(case_agree(s[ii + d], t[ii + d]));
            }
            if ii + d + 1 < s.len() {
                assert(case_agree(s[ii + d + 1], t[ii + d + 1]));
            }
            assert(s.subrange(ii, ii + n) =~= t.subrange(ii, ii + n));
            if !(ii + d + 1 < s.len() && s[ii + d] == '.' && is_digit(s[ii + d + 1])) {
                assert(s.subrange(ii, ii + d) =~= t.subrange(ii, ii + d));
            }
        } else if c == '\'' || c == '"' {
            let m = quote_len(s, j + 1, c)->Some_0;
            lemma_quote_same(s, t, j + 1, c, m);
            assert(s.subrange(ii + 1, ii + 1 + m) =~= t.subrange(ii + 1, ii + 1 + m));
        } else if c == '$' {
            assert(s.subrange(ii + 1, ii + n) =~= t.subrange(ii + 1, ii + n));
        } else if c == '<' || c == '>' {
            if ii + 1 < s.len() {
                assert(case_agree(s[ii + 1], t[ii + 1]));
            }
        }
        assert(next_token(t, j) == next_token(s, j));
        assert(case_variant_from(s, t, j + n, rest)) by {
            assert forall|k: int| j + n <= k < s.len() && #[trigger] s[k] != t[k] implies in_keyword(
                rest,
                k,
            ) && case_agree(s[k], t[k]) by {
                assert(in_keyword(ps, k));
                let m = choose|m: int|
                    0 <= m < ps.len() && (#[trigger] ps[m]).0 is Kw && ps[m].1 <= k && k < ps[m].1
                        + kw_text(ps[m].0->Kw_0).len();
                if m == 0 {
                    let w = s.subrange(ii, ii + n);
                    lemma_keyword_of_case(w, w);
                    assert(false);
                } else {
                    assert(ps[m] == rest[m - 1]);
                }
            }
        }
        lemma_lex_case(s, t, j + n);
    }
}

/// The letter case of keywords does not change how a text is split into
/// tokens.
pub proof fn lemma_keyword_case_keeps_tokens(s: Seq<char>, t: Seq<char>)
    requires
        keyword_case_variant(s, t),
    ensures
        spec_tokenize(t) == spec_tokenize(s),
{
    lemma_lex_case(s, t, 0);
}

} // verus!
