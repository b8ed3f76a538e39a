use vstd::prelude::*;
use crate::token::{Op, Token, Error, ErrorView};

verus! {

/// Whether `c` has Unicode's White_Space property.
pub uninterp spec fn whitespace(c: char) -> bool;

/// Whether `c` has Unicode's Alphabetic property.
pub uninterp spec fn alphabetic(c: char) -> bool;

/// Relies on `char::is_whitespace`, which tests the White_Space property.
#[verifier::external_body]
fn is_whitespace(c: char) -> (r: bool)
    ensures
        r == whitespace(c),
{
    c.is_whitespace()
}

/// Relies on `char::is_alphabetic`, which tests the Alphabetic property.
#[verifier::external_body]
fn is_alphabetic(c: char) -> (r: bool)
    ensures
        r == alphabetic(c),
{
    c.is_alphabetic()
}

/// Relies on `String`'s `FromIterator<&char>`: the string holds the
/// characters in order.
#[verifier::external_body]
fn string_of(chars: &Vec<char>) -> (r: String)
    ensures
        r@ == chars@,
{
    String::from_iter(chars.iter())
}

pub open spec fn is_digit(c: char) -> bool {
    '0' <= c <= '9'
}

/// How many times `c` occurs in `s`.
pub open spec fn count_of(s: Seq<char>, c: char) -> nat
    decreases s.len(),
{
    if s.len() == 0 {
        0
    } else {
        count_of(s.drop_last(), c) + if s.last() == c {
            1nat
        } else {
            0nat
        }
    }
}

/// `Digit+ | Digit+ '.' Digit* | Digit* '.' Digit+`: digits and at most one
/// point, with at least one digit.
pub open spec fn mantissa(m: Seq<char>) -> bool {
    &&& forall|i: int| 0 <= i < m.len() ==> is_digit(#[trigger] m[i]) || m[i] == '.'
    &&& count_of(m, '.') <= 1
    &&& count_of(m, '.') < m.len()
}

/// One or more decimal digits.
pub open spec fn digits(d: Seq<char>) -> bool {
    d.len() > 0 && forall|i: int| 0 <= i < d.len() ==> is_digit(#[trigger] d[i])
}

/// What follows the exponent marker: `Sign? Digit+`.
pub open spec fn exponent(x: Seq<char>) -> bool {
    if x.len() > 0 && (x[0] == '+' || x[0] == '-') {
        digits(x.skip(1))
    } else {
        digits(x)
    }
}

/// `Mantissa (('e' | 'E') Sign? Digit+)?`
pub open spec fn decimal(s: Seq<char>) -> bool {
    ||| mantissa(s)
    ||| exists|j: int|
        0 <= j < s.len() && (s[j] == 'e' || s[j] == 'E') && mantissa(#[trigger] s.take(j))
            && exponent(s.skip(j + 1))
}

/// `s` spells a word whose letters are given in lower and in upper case,
/// each letter in either.
pub open spec fn spells(s: Seq<char>, lower: Seq<char>, upper: Seq<char>) -> bool {
    s.len() == lower.len() && s.len() == upper.len() && forall|i: int|
        0 <= i < s.len() ==> #[trigger] s[i] == lower[i] || s[i] == upper[i]
}

/// The decimal literals that the standard library's float parser accepts:
/// `Sign? ('inf' | 'infinity' | 'nan' | Decimal)`, the words in any case.
pub open spec fn number_literal(s: Seq<char>) -> bool {
    let u = if s.len() > 0 && (s[0] == '+' || s[0] == '-') {
        s.skip(1)
    } else {
        s
    };
    ||| spells(u, seq!['i', 'n', 'f'], seq!['I', 'N', 'F'])
    ||| spells(
        u,
        seq!['i', 'n', 'f', 'i', 'n', 'i', 't', 'y'],
        seq!['I', 'N', 'F', 'I', 'N', 'I', 'T', 'Y'],
    )
    ||| spells(u, seq!['n', 'a', 'n'], seq!['N', 'A', 'N'])
    ||| decimal(u)
}

fn digit(c: char) -> (r: bool)
    ensures
        r == is_digit(c),
{
    '0' <= c && c <= '9'
}

fn all_digits(v: &Vec<char>, a: usize, b: usize) -> (r: bool)
    requires
        a <= b <= v@.len(),
    ensures
        r == digits(v@.subrange(a as int, b as int)),
{
    let mut i = a;
    while i < b
        invariant
            a <= i <= b <= v@.len(),
            forall|k: int| a <= k < i ==> is_digit(#[trigger] v@[k]),
        decreases b - i,
    {
        if !digit(v[i]) {
            assert(v@.subrange(a as int, b as int)[i - a] == v@[i as int]);
            return false;
        }
        i = i + 1;
    }
    assert forall|k: int| 0 <= k < b - a implies is_digit(
        #[trigger] v@.subrange(a as int, b as int)[k],
    ) by {
        assert(v@.subrange(a as int, b as int)[k] == v@[a + k]);
    }
    a < b
}

fn is_mantissa(v: &Vec<char>, a: usize, b: usize) -> (r: bool)
    requires
        a <= b <= v@.len(),
    ensures
        r == mantissa(v@.subrange(a as int, b as int)),
{
    let ghost m = v@.subrange(a as int, b as int);
    let mut i = a;
    let mut points: usize = 0;
    while i < b
        invariant
            a <= i <= b <= v@.len(),
            m == v@.subrange(a as int, b as int),
            points as nat == count_of(m.take(i - a), '.'),
            points <= 1,
            forall|k: int| 0 <= k < i - a ==> is_digit(#[trigger] m[k]) || m[k] == '.',
        decreases b - i,
    {
        let c = v[i];
        assert(m[i - a] == c);
        assert(m.take(i - a + 1).drop_last() =~= m.take(i - a));
        if !digit(c) && c != '.' {
            return false;
        }
        if c == '.' {
            if points == 1 {
                assert(count_of(m.take(i - a + 1), '.') == 2);
                proof {
                    lemma_count_prefix(m, i - a + 1, '.');
                }
                return false;
            }
            points = points + 1;
        }
        i = i + 1;
    }
    assert(m.take(i - a) =~= m);
    points < b - a
}

proof fn lemma_count_prefix(s: Seq<char>, k: int, c: char)
    requires
        0 <= k <= s.len(),
    ensures
        count_of(s.take(k), c) <= count_of(s, c),
    decreases s.len() - k,
{
    if k < s.len() {
        assert(s.take(k + 1).drop_last() =~= s.take(k));
        lemma_count_prefix(s, k + 1, c);
    } else {
        assert(s.take(k) =~= s);
    }
}

fn is_exponent(v: &Vec<char>, a: usize, b: usize) -> (r: bool)
    requires
        a <= b <= v@.len(),
    ensures
        r == exponent(v@.subrange(a as int, b as int)),
{
    let ghost x = v@.subrange(a as int, b as int);
    if a < b && (v[a] == '+' || v[a] == '-') {
        assert(x.skip(1) =~= v@.subrange(a + 1, b as int));
        all_digits(v, a + 1, b)
    } else {
        all_digits(v, a, b)
    }
}

fn is_decimal(v: &Vec<char>, a: usize, b: usize) -> (r: bool)
    requires
        a <= b <= v@.len(),
    ensures
        r == decimal(v@.subrange(a as int, b as int)),
{
    let ghost s = v@.subrange(a as int, b as int);
    let mut j = a;
    while j < b && v[j] != 'e' && v[j] != 'E'
        invariant
            a <= j <= b <= v@.len(),
            forall|k: int| a <= k < j ==> #[trigger] v@[k] != 'e' && v@[k] != 'E',
        decreases b - j,
    {
        j = j + 1;
    }
    if j == b {
        let r = is_mantissa(v, a, b);
        assert forall|i: int| 0 <= i < s.len() implies !(s[i] == 'e' || s[i] == 'E') by {
            assert(s[i] == v@[a + i]);
        }
        r
    } else {
        let m = is_mantissa(v, a, j);
        let e = is_exponent(v, j + 1, b);
        let ghost je = j - a;
        assert(s[je] == v@[j as int]);
        assert(s.take(je) =~= v@.subrange(a as int, j as int));
        assert(s.skip(je + 1) =~= v@.subrange(j + 1, b as int));
        if !(m && e) {
            assert(!mantissa(s)) by {
                assert(!(is_digit(s[je]) || s[je] == '.'));
            }
            assert forall|i: int|
                0 <= i < s.len() && (s[i] == 'e' || s[i] == 'E') implies !(mantissa(
                #[trigger] s.take(i),
            ) && exponent(s.skip(i + 1))) by {
                if i < je {
                    assert(s[i] == v@[a + i]);
                } else if i > je {
                    assert(s.take(i)[je] == s[je]);
                    assert(!(is_digit(s.take(i)[je]) || s.take(i)[je] == '.'));
                }
            }
        }
        m && e
    }
}

fn spells_at(v: &Vec<char>, a: usize, lower: &Vec<char>, upper: &Vec<char>) -> (r: bool)
    requires
        a <= v@.len(),
    ensures
        r == spells(v@.skip(a as int), lower@, upper@),
{
    let ghost u = v@.skip(a as int);
    if v.len() - a != lower.len() || v.len() - a != upper.len() {
        return false;
    }
    let n = v.len();
    let mut i: usize = 0;
    while i < lower.len()
        invariant
            n == v@.len(),
            a <= v@.len(),
            lower@.len() == v@.len() - a,
            upper@.len() == v@.len() - a,
            u.len() == v@.len() - a,
            u == v@.skip(a as int),
            i <= lower@.len(),
            forall|k: int| 0 <= k < i ==> #[trigger] u[k] == lower@[k] || u[k] == upper@[k],
        decreases lower.len() - i,
    {
        let c = v[a + i];
        assert(u[i as int] == c);
        if c != lower[i] && c != upper[i] {
            return false;
        }
        i = i + 1;
    }
    true
}

/// Whether `text` is a number literal that the standard library's float
/// parser reads (see `number_literal`).
pub fn is_number_literal(text: &Vec<char>) -> (r: bool)
    ensures
        r == number_literal(text@),
{
    let n = text.len();
    let a: usize = if n > 0 && (text[0] == '+' || text[0] == '-') {
        1
    } else {
        0
    };
    assert(text@.skip(a as int) =~= text@.subrange(a as int, n as int));
    assert(a == 0 ==> text@.skip(0) =~= text@);
    if spells_at(text, a, &vec!['i', 'n', 'f'], &vec!['I', 'N', 'F']) {
        return true;
    }
    if spells_at(
        text,
        a,
        &vec!['i', 'n', 'f', 'i', 'n', 'i', 't', 'y'],
        &vec!['I', 'N', 'F', 'I', 'N', 'I', 'T', 'Y'],
    ) {
        return true;
    }
    if spells_at(text, a, &vec!['n', 'a', 'n'], &vec!['N', 'A', 'N']) {
        return true;
    }
    is_decimal(text, a, n)
}

/// What a token of the tokenizer's output stands for.
pub enum Lexeme {
    Number(Seq<char>),
    Name(Seq<char>),
    Operator(Op),
    OpenParen,
    CloseParen,
}

pub open spec fn lexeme(t: Token<String>) -> Lexeme {
    match t {
        Token::Value(text) => Lexeme::Number(text@),
        Token::Variable(name) => Lexeme::Name(name@),
        Token::Operator(op) => Lexeme::Operator(op),
        Token::OpenParen => Lexeme::OpenParen,
        Token::CloseParen => Lexeme::CloseParen,
    }
}

pub open spec fn lexemes(ts: Seq<Token<String>>) -> Seq<Lexeme> {
    ts.map_values(|t: Token<String>| lexeme(t))
}

/// The characters that stand alone as a token.
pub open spec fn is_symbol(c: char) -> bool {
    c == '+' || c == '-' || c == '*' || c == '/' || c == '^' || c == '(' || c == ')'
}

pub open spec fn symbol(c: char) -> Lexeme {
    if c == '+' {
        Lexeme::Operator(Op::Add)
    } else if c == '-' {
        Lexeme::Operator(Op::Sub)
    } else if c == '*' {
        Lexeme::Operator(Op::Mul)
    } else if c == '/' {
        Lexeme::Operator(Op::Div)
    } else if c == '^' {
        Lexeme::Operator(Op::Pow)
    } else if c == '(' {
        Lexeme::OpenParen
    } else {
        Lexeme::CloseParen
    }
}

pub open spec fn all_alphabetic(s: Seq<char>) -> bool {
    forall|i: int| 0 <= i < s.len() ==> alphabetic(#[trigger] s[i])
}

/// Appends what the literal buffer `buf` holds to `out`: nothing when it is
/// empty, a number when it reads as one, else a name when it is all letters.
/// Any other buffer is the error.
pub open spec fn flush(out: Seq<Lexeme>, buf: Seq<char>) -> Result<Seq<Lexeme>, Seq<char>> {
    if buf.len() == 0 {
        Ok(out)
    } else if number_literal(buf) {
        Ok(out.push(Lexeme::Number(buf)))
    } else if all_alphabetic(buf) {
        Ok(out.push(Lexeme::Name(buf)))
    } else {
        Err(buf)
    }
}

/// One character of the tokenizer on (tokens so far, literal buffer).
pub open spec fn scan_step(st: (Seq<Lexeme>, Seq<char>), c: char) -> Result<
    (Seq<Lexeme>, Seq<char>),
    Seq<char>,
> {
    if whitespace(c) {
        Ok(st)
    } else if is_symbol(c) {
        match flush(st.0, st.1) {
            Ok(out) => Ok((out.push(symbol(c)), Seq::empty())),
            Err(bad) => Err(bad),
        }
    } else {
        Ok((st.0, st.1.push(c)))
    }
}

/// The tokenizer's state after reading `s`, or the literal it failed on.
pub open spec fn scan(s: Seq<char>) -> Result<(Seq<Lexeme>, Seq<char>), Seq<char>>
    decreases s.len(),
{
    if s.len() == 0 {
        Ok((Seq::empty(), Seq::empty()))
    } else {
        match scan(s.drop_last()) {
            Ok(st) => scan_step(st, s.last()),
            Err(bad) => Err(bad),
        }
    }
}

/// The tokens of `s`, or the literal that is neither a number nor a name.
pub open spec fn lex(s: Seq<char>) -> Result<Seq<Lexeme>, Seq<char>> {
    match scan(s) {
        Ok(st) => flush(st.0, st.1),
        Err(bad) => Err(bad),
    }
}

proof fn lemma_lexemes_push(ts: Seq<Token<String>>, t: Token<String>)
    ensures
        lexemes(ts.push(t)) == lexemes(ts).push(lexeme(t)),
{
    assert(lexemes(ts.push(t)) =~= lexemes(ts).push(lexeme(t)));
}

proof fn lemma_scan_error_persists(s: Seq<char>, i: int)
    requires
        0 <= i <= s.len(),
        scan(s.take(i)) is Err,
    ensures
        scan(s) == scan(s.take(i)),
    decreases s.len() - i,
{
    if i < s.len() {
        assert(s.take(i + 1).drop_last() =~= s.take(i));
        lemma_scan_error_persists(s, i + 1);
    } else {
        assert(s.take(i) =~= s);
    }
}

fn all_alphabetic_exec(v: &Vec<char>) -> (r: bool)
    ensures
        r == all_alphabetic(v@),
{
    let mut i: usize = 0;
    while i < v.len()
        invariant
            i <= v@.len(),
            forall|k: int| 0 <= k < i ==> alphabetic(#[trigger] v@[k]),
        decreases v.len() - i,
    {
        if !is_alphabetic(v[i]) {
            return false;
        }
        i = i + 1;
    }
    true
}

/// Empties the literal buffer into `acc` as `flush` says: on success the
/// buffer is empty and `acc` has gained its token, if any; on failure the
/// error carries the buffer.
pub fn check_reset_num_buffer(num_buffer: &mut Vec<char>, acc: &mut Vec<Token<String>>) -> (r:
    Result<(), Error>)
    ensures
        match flush(lexemes(old(acc)@), old(num_buffer)@) {
            Ok(out) => r is Ok && lexemes(final(acc)@) == out && final(num_buffer)@.len() == 0,
            Err(bad) => r matches Err(e) && e@ == ErrorView::InvalidToken(bad),
        },
{
    if num_buffer.len() == 0 {
        return Ok(());
    }
    let text = string_of(num_buffer);
    if is_number_literal(num_buffer) {
        proof {
            lemma_lexemes_push(acc@, Token::Value(text));
        }
        acc.push(Token::Value(text));
    } else if all_alphabetic_exec(num_buffer) {
        proof {
            lemma_lexemes_push(acc@, Token::Variable(text));
        }
        acc.push(Token::Variable(text));
    } else {
        return Err(Error::InvalidToken(text));
    }
    num_buffer.clear();
    Ok(())
}

fn symbol_token(c: char) -> (t: Token<String>)
    requires
        is_symbol(c),
    ensures
        lexeme(t) == symbol(c),
{
    if c == '+' {
        Token::Operator(Op::Add)
    } else if c == '-' {
        Token::Operator(Op::Sub)
    } else if c == '*' {
        Token::Operator(Op::Mul)
    } else if c == '/' {
        Token::Operator(Op::Div)
    } else if c == '^' {
        Token::Operator(Op::Pow)
    } else if c == '(' {
        Token::OpenParen
    } else {
        Token::CloseParen
    }
}

/// Splits `expr` into tokens. Whitespace is skipped entirely; each of
/// `+ - * / ^ ( )` is a token of its own; every other character joins a
/// literal buffer, which becomes a number token (holding its text) when the
/// standard float parser reads it, else a variable when it is all letters,
/// else the error `InvalidToken` with the buffer's text.
pub fn tokenize(expr: &str) -> (r: Result<Vec<Token<String>>, Error>)
    ensures
        r matches Ok(ts) ==> lex(expr@) == Ok::<Seq<Lexeme>, Seq<char>>(lexemes(ts@)),
        r matches Err(e) ==> lex(expr@) is Err && e@ == ErrorView::InvalidToken(lex(expr@)->Err_0),
{
    let ghost all = expr@;
    let mut num_buffer: Vec<char> = Vec::new();
    let mut tokens: Vec<Token<String>> = Vec::new();
    proof {
        assert(lexemes(tokens@) =~= Seq::<Lexeme>::empty());
    }
    for c in it: expr.chars()
        invariant
            it.seq() == all,
            all == expr@,
            scan(all.take(it.index() as int)) == Ok::<(Seq<Lexeme>, Seq<char>), Seq<char>>(
                (lexemes(tokens@), num_buffer@),
            ),
    {
        let ghost k = it.index();
        proof {
            assert(all.take(k + 1).drop_last() =~= all.take(k as int));
        }
        if is_whitespace(c) {
        } else if c == '+' || c == '-' || c == '*' || c == '/' || c == '^' || c == '(' || c
            == ')' {
            let ghost before = (lexemes(tokens@), num_buffer@);
            match check_reset_num_buffer(&mut num_buffer, &mut tokens) {
                Ok(()) => {},
                Err(e) => {
                    proof {
                        lemma_scan_error_persists(all, k + 1);
                        assert(scan(all.take(k + 1)) == scan_step(before, c));
                    }
                    return Err(e);
                },
            }
            let t = symbol_token(c);
            proof {
                lemma_lexemes_push(tokens@, t);
                assert(num_buffer@ =~= Seq::<char>::empty());
            }
            tokens.push(t);
        } else {
            num_buffer.push(c);
        }
    }
    assert(all.take(all.len() as int) =~= all);
    match check_reset_num_buffer(&mut num_buffer, &mut tokens) {
        Ok(()) => Ok(tokens),
        Err(e) => Err(e),
    }
}

/// `s` without its whitespace.
pub open spec fn strip_whitespace(s: Seq<char>) -> Seq<char> {
    s.filter(|c: char| !whitespace(c))
}

proof fn lemma_scan_strip(s: Seq<char>)
    ensures
        scan(s) == scan(strip_whitespace(s)),
    decreases s.len(),
{
    if s.len() > 0 {
        lemma_scan_strip(s.drop_last());
        reveal(Seq::filter);
        let f = strip_whitespace(s);
        let f0 = strip_whitespace(s.drop_last());
        if !whitespace(s.last()) {
            assert(f == f0.push(s.last()));
            assert(f.drop_last() =~= f0);
        } else {
            assert(f == f0);
        }
    }
}

/// Whitespace placement does not matter: two inputs that hold the same
/// characters other than whitespace, in the same order, tokenize alike.
pub proof fn lemma_whitespace_placement(s: Seq<char>, t: Seq<char>)
    requires
        strip_whitespace(s) == strip_whitespace(t),
    ensures
        lex(s) == lex(t),
{
    lemma_scan_strip(s);
    lemma_scan_strip(t);
}

} // verus!
