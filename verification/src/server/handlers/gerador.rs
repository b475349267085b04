//! The password generator: random characters from a chosen alphabet, or a
//! "diceware" phrase of words joined by hyphens, and the strength score of a
//! password.
use vstd::prelude::*;
use vstd::utf8::{encode_utf8, is_ascii_chars};

use rand::seq::SliceRandom;
use rand::Rng;

use crate::server::error::AppError;
use crate::server::models::{ForcaSenha, GerarSenhaRequest, GerarSenhaResponse};
use crate::text::{
    chars_of, decimal, i64_to_decimal, lemma_decimal_digits, owned, push_char, signed_decimal,
    string_from_chars,
};

verus! {

/// Whether `c` is an uppercase letter (`char::is_uppercase`, Unicode's
/// `Uppercase` property).
pub uninterp spec fn unicode_is_uppercase(c: char) -> bool;

/// Whether `c` is alphabetic or numeric in Unicode (`char::is_alphanumeric`).
pub uninterp spec fn unicode_is_alphanumeric(c: char) -> bool;

/// The characters of `char::to_uppercase(c)` (one or more).
pub uninterp spec fn unicode_to_uppercase(c: char) -> Seq<char>;

pub open spec fn is_ascii_lowercase(c: char) -> bool {
    'a' <= c <= 'z'
}

pub open spec fn is_ascii_uppercase(c: char) -> bool {
    'A' <= c <= 'Z'
}

pub open spec fn is_ascii_digit(c: char) -> bool {
    '0' <= c <= '9'
}

/// What `char::is_uppercase` answers: among ASCII characters exactly `A` to
/// `Z`; beyond ASCII, Unicode's `Uppercase` property.
pub open spec fn char_is_upper(c: char) -> bool {
    if c <= '\u{7f}' {
        is_ascii_uppercase(c)
    } else {
        unicode_is_uppercase(c)
    }
}

/// What `char::is_alphanumeric` answers: among ASCII characters exactly the
/// letters and the digits; beyond ASCII, Unicode's alphabetic or numeric
/// properties.
pub open spec fn char_is_alnum(c: char) -> bool {
    if c <= '\u{7f}' {
        is_ascii_lowercase(c) || is_ascii_uppercase(c) || is_ascii_digit(c)
    } else {
        unicode_is_alphanumeric(c)
    }
}

/// What `char::to_uppercase` gives: an ASCII lowercase letter becomes its
/// one ASCII capital, any other ASCII character stays as it is; beyond ASCII,
/// Unicode's mapping.
pub open spec fn char_uppercased(c: char) -> Seq<char> {
    if is_ascii_lowercase(c) {
        seq![((c as int) - 32) as char]
    } else if c <= '\u{7f}' {
        seq![c]
    } else {
        unicode_to_uppercase(c)
    }
}

/// `char::is_uppercase`. Among ASCII characters, exactly `A` to `Z` are
/// uppercase.
#[verifier::external_body]
fn char_is_uppercase(c: char) -> (r: bool)
    ensures
        r == unicode_is_uppercase(c),
        c <= '\u{7f}' ==> (r <==> is_ascii_uppercase(c)),
{
    c.is_uppercase()
}

/// `char::is_alphanumeric`. Among ASCII characters, exactly the letters and
/// the digits are alphanumeric.
#[verifier::external_body]
fn char_is_alphanumeric(c: char) -> (r: bool)
    ensures
        r == unicode_is_alphanumeric(c),
        c <= '\u{7f}' ==> (r <==> (is_ascii_lowercase(c) || is_ascii_uppercase(c) || is_ascii_digit(c))),
{
    c.is_alphanumeric()
}

/// `char::to_uppercase`, collected into a string. An ASCII lowercase letter
/// gives its one ASCII capital (`a` to `z` become `A` to `Z`); any other
/// ASCII character gives itself.
#[verifier::external_body]
fn char_to_uppercase(c: char) -> (r: String)
    ensures
        r@ == unicode_to_uppercase(c),
        is_ascii_lowercase(c) ==> r@ == seq![((c as int) - 32) as char],
        c <= '\u{7f}' && !is_ascii_lowercase(c) ==> r@ == seq![c],
{
    c.to_uppercase().collect()
}

/// `Rng::gen_range(low..high)` of the thread's generator: some number in the
/// range. (`gen_range` panics on an empty range.)
#[verifier::external_body]
fn random_in_range(low: usize, high: usize) -> (r: usize)
    requires
        low < high,
    ensures
        low <= r < high,
{
    rand::thread_rng().gen_range(low..high)
}

/// `SliceRandom::choose` with the thread's generator: some element of the
/// slice, or nothing when it is empty.
#[verifier::external_body]
fn choose_word(words: &[String]) -> (r: Option<&String>)
    ensures
        r is None <==> words@.len() == 0,
        r matches Some(w) ==> words@.contains(*w),
{
    words.choose(&mut rand::thread_rng())
}

pub open spec fn lowercase_letters() -> Seq<char> {
    Seq::new(26, |i: int| ((97 + i) as u8) as char)
}

pub open spec fn uppercase_letters() -> Seq<char> {
    Seq::new(26, |i: int| ((65 + i) as u8) as char)
}

pub open spec fn digits() -> Seq<char> {
    Seq::new(10, |i: int| ((48 + i) as u8) as char)
}

/// The special characters a random password may use.
pub open spec fn specials() -> Seq<char> {
    "!@#$%^&*()_+-=[]{}|;:,.<>?"@
}

/// The characters a random password is drawn from: the lowercase letters,
/// then, as asked, the uppercase letters, the digits and the specials.
pub open spec fn password_alphabet(usar_maiusculas: bool, usar_numeros: bool, usar_especiais: bool) -> Seq<char> {
    lowercase_letters() + (if usar_maiusculas {
        uppercase_letters()
    } else {
        Seq::empty()
    }) + (if usar_numeros {
        digits()
    } else {
        Seq::empty()
    }) + (if usar_especiais {
        specials()
    } else {
        Seq::empty()
    })
}

fn push_range(v: &mut Vec<char>, first: u8, count: u8)
    requires
        first as int + count as int <= 128,
    ensures
        final(v)@ == old(v)@ + Seq::new(count as nat, |i: int| ((first + i) as u8) as char),
{
    let ghost start = v@;
    let mut k: u8 = 0;
    while k < count
        invariant
            k <= count,
            first as int + count as int <= 128,
            v@ == start + Seq::new(k as nat, |i: int| ((first + i) as u8) as char),
        decreases count - k,
    {
        let c = (first + k) as char;
        v.push(c);
        k = k + 1;
        assert(v@ =~= start + Seq::new(k as nat, |i: int| ((first + i) as u8) as char));
    }
}

fn alphabet(usar_maiusculas: bool, usar_numeros: bool, usar_especiais: bool) -> (v: Vec<char>)
    ensures
        v@ == password_alphabet(usar_maiusculas, usar_numeros, usar_especiais),
        v@.len() >= 26,
{
    let mut v: Vec<char> = Vec::new();
    push_range(&mut v, 97, 26);
    assert(v@ =~= lowercase_letters());
    let ghost a = v@;
    if usar_maiusculas {
        push_range(&mut v, 65, 26);
        assert(v@ =~= a + uppercase_letters());
    } else {
        assert(v@ =~= a + Seq::<char>::empty());
    }
    let ghost b = v@;
    if usar_numeros {
        push_range(&mut v, 48, 10);
        assert(v@ =~= b + digits());
    } else {
        assert(v@ =~= b + Seq::<char>::empty());
    }
    let ghost c = v@;
    if usar_especiais {
        let sp = chars_of("!@#$%^&*()_+-=[]{}|;:,.<>?");
        let mut i: usize = 0;
        while i < sp.len()
            invariant
                0 <= i <= sp@.len(),
                sp@ == specials(),
                v@ == c + sp@.subrange(0, i as int),
            decreases sp@.len() - i,
        {
            v.push(sp[i]);
            i = i + 1;
            assert(v@ =~= c + sp@.subrange(0, i as int));
        }
        assert(sp@.subrange(0, sp@.len() as int) =~= sp@);
    } else {
        assert(v@ =~= c + Seq::<char>::empty());
    }
    v
}

/// A random password of `tamanho` characters, each drawn from the alphabet
/// the flags select.
pub fn gerar_aleatoria(tamanho: usize, usar_maiusculas: bool, usar_numeros: bool, usar_especiais: bool) -> (s: String)
    ensures
        s@.len() == tamanho,
        forall|i: int|
            0 <= i < s@.len() ==> password_alphabet(usar_maiusculas, usar_numeros, usar_especiais).contains(
                #[trigger] s@[i],
            ),
{
    let chars = alphabet(usar_maiusculas, usar_numeros, usar_especiais);
    let ghost alpha = chars@;
    let mut s = String::new();
    let mut n: usize = 0;
    while n < tamanho
        invariant
            n <= tamanho,
            chars@ == alpha,
            alpha == password_alphabet(usar_maiusculas, usar_numeros, usar_especiais),
            alpha.len() >= 26,
            s@.len() == n,
            forall|i: int| 0 <= i < s@.len() ==> alpha.contains(#[trigger] s@[i]),
        decreases tamanho - n,
    {
        let k = random_in_range(0, chars.len());
        let c = chars[k];
        let ghost before = s@;
        push_char(&mut s, c);
        proof {
            assert forall|i: int| 0 <= i < s@.len() implies alpha.contains(#[trigger] s@[i]) by {
                if i < before.len() {
                    assert(s@[i] == before[i]);
                } else {
                    assert(alpha[k as int] == c);
                }
            }
        }
        n = n + 1;
    }
    s
}

/// A word with its first character in uppercase.
pub open spec fn capitalized(word: Seq<char>) -> Seq<char> {
    if word.len() == 0 {
        Seq::empty()
    } else {
        char_uppercased(word[0]) + word.drop_first()
    }
}

pub fn capitalizar_palavra(palavra: &str) -> (r: String)
    ensures
        r@ == capitalized(palavra@),
{
    let chars = chars_of(palavra);
    if chars.len() == 0 {
        return String::new();
    }
    let mut r = char_to_uppercase(chars[0]);
    let mut i: usize = 1;
    let ghost head = r@;
    while i < chars.len()
        invariant
            1 <= i <= chars@.len(),
            chars@ == palavra@,
            r@ == head + chars@.subrange(1, i as int),
        decreases chars@.len() - i,
    {
        push_char(&mut r, chars[i]);
        i = i + 1;
        assert(r@ =~= head + chars@.subrange(1, i as int));
    }
    assert(chars@.subrange(1, chars@.len() as int) =~= palavra@.drop_first());
    r
}

/// Words joined by hyphens.
pub open spec fn hyphen_joined(words: Seq<Seq<char>>) -> Seq<char>
    decreases words.len(),
{
    if words.len() == 0 {
        Seq::empty()
    } else if words.len() == 1 {
        words[0]
    } else {
        hyphen_joined(words.drop_last()) + seq!['-'] + words.last()
    }
}

/// The number of words of a phrase: the one asked for, kept within 3 to 8.
pub open spec fn word_count(quantidade: usize) -> int {
    if quantidade < 3 {
        3
    } else if quantidade > 8 {
        8
    } else {
        quantidade as int
    }
}

/// `phrase` is the words `chosen`, each a word of `palavras` (capitalized if
/// asked), joined by hyphens, followed, if asked, by a hyphen and a number
/// from 10 to 99.
pub open spec fn phrase_of(
    phrase: Seq<char>,
    palavras: Seq<String>,
    count: int,
    capitalizar: bool,
    incluir_numero: bool,
    chosen: Seq<Seq<char>>,
) -> bool {
    &&& chosen.len() == count
    &&& forall|i: int| 0 <= i < count ==> exists|j: int| 0 <= j < palavras.len() && #[trigger] chosen[i] == (if capitalizar {
        capitalized(palavras[j]@)
    } else {
        palavras[j]@
    })
    &&& if incluir_numero {
        exists|n: nat| 10 <= n < 100 && phrase == #[trigger] hyphen_joined(chosen) + seq!['-'] + decimal(n)
    } else {
        phrase == hyphen_joined(chosen)
    }
}

/// `phrase` is made of `count` words of `palavras` (capitalized if asked),
/// joined by hyphens, followed, if asked, by a hyphen and a number from 10
/// to 99.
pub open spec fn is_word_phrase(
    phrase: Seq<char>,
    palavras: Seq<String>,
    count: int,
    capitalizar: bool,
    incluir_numero: bool,
) -> bool {
    exists|chosen: Seq<Seq<char>>| #[trigger] phrase_of(phrase, palavras, count, capitalizar, incluir_numero, chosen)
}

/// The pieces of `s` between its hyphens, as `str::split('-')` yields them:
/// one more piece than `s` has hyphens.
pub open spec fn split_hyphens(s: Seq<char>) -> Seq<Seq<char>>
    decreases s.len(),
{
    if s.len() == 0 {
        seq![Seq::<char>::empty()]
    } else if s.last() == '-' {
        split_hyphens(s.drop_last()).push(Seq::<char>::empty())
    } else {
        let p = split_hyphens(s.drop_last());
        p.update(p.len() - 1, p.last().push(s.last()))
    }
}

/// Split on its hyphens, `phrase` gives `count` words of `palavras`
/// (capitalized if asked), then, if asked, the decimal form of a number from
/// 10 to 99.
pub open spec fn splits_into_words(
    phrase: Seq<char>,
    palavras: Seq<String>,
    count: int,
    capitalizar: bool,
    incluir_numero: bool,
) -> bool {
    &&& split_hyphens(phrase).len() == count + (if incluir_numero { 1int } else { 0int })
    &&& forall|i: int|
        0 <= i < count ==> exists|j: int| 0 <= j < palavras.len() && #[trigger] split_hyphens(phrase)[i] == (if capitalizar {
            capitalized(palavras[j]@)
        } else {
            palavras[j]@
        })
    &&& incluir_numero ==> exists|n: nat| 10 <= n < 100 && split_hyphens(phrase)[count] == decimal(n)
}

/// A word list whose phrases split back into their words: no word holds a
/// hyphen, and, when the words are capitalized, each one that is not empty
/// starts with an ASCII character (whose capital is then one ASCII
/// character, never a hyphen).
pub open spec fn phrase_words(palavras: Seq<String>, capitalizar: bool) -> bool {
    forall|j: int|
        0 <= j < palavras.len() ==> !(#[trigger] palavras[j]@).contains('-') && (capitalizar
            && palavras[j]@.len() > 0 ==> palavras[j]@[0] <= '\u{7f}')
}

proof fn lemma_split_len(s: Seq<char>)
    ensures
        split_hyphens(s).len() >= 1,
    decreases s.len(),
{
    if s.len() > 0 {
        lemma_split_len(s.drop_last());
    }
}

proof fn lemma_no_hyphen_drop_last(b: Seq<char>)
    requires
        b.len() > 0,
        !b.contains('-'),
    ensures
        !b.drop_last().contains('-'),
        b.last() != '-',
{
    if b.drop_last().contains('-') {
        let k = choose|k: int| 0 <= k < b.drop_last().len() && b.drop_last()[k] == '-';
        assert(b[k] == '-');
    }
    assert(b[b.len() - 1] == b.last());
}

proof fn lemma_split_single(b: Seq<char>)
    requires
        !b.contains('-'),
    ensures
        split_hyphens(b) == seq![b],
    decreases b.len(),
{
    if b.len() == 0 {
        assert(b =~= Seq::<char>::empty());
    } else {
        lemma_no_hyphen_drop_last(b);
        lemma_split_single(b.drop_last());
        assert(b.drop_last().push(b.last()) =~= b);
        assert(seq![b.drop_last()].update(0, b) =~= seq![b]);
    }
}

proof fn lemma_split_after_hyphen(a: Seq<char>, b: Seq<char>)
    requires
        !b.contains('-'),
    ensures
        split_hyphens(a + seq!['-'] + b) == split_hyphens(a).push(b),
    decreases b.len(),
{
    let s = a + seq!['-'] + b;
    if b.len() == 0 {
        assert(s.drop_last() =~= a);
        assert(b =~= Seq::<char>::empty());
    } else {
        let b2 = b.drop_last();
        lemma_no_hyphen_drop_last(b);
        lemma_split_after_hyphen(a, b2);
        assert(s.drop_last() =~= a + seq!['-'] + b2);
        assert(s.last() == b.last());
        lemma_split_len(a);
        let p = split_hyphens(a).push(b2);
        assert(b2.push(b.last()) =~= b);
        assert(p.update(p.len() - 1, b) =~= split_hyphens(a).push(b));
    }
}

/// Splitting words without hyphens, once joined by hyphens, gives the words
/// back.
pub proof fn lemma_split_joined(parts: Seq<Seq<char>>)
    requires
        parts.len() >= 1,
        forall|i: int| 0 <= i < parts.len() ==> !(#[trigger] parts[i]).contains('-'),
    ensures
        split_hyphens(hyphen_joined(parts)) == parts,
    decreases parts.len(),
{
    if parts.len() == 1 {
        lemma_split_single(parts[0]);
        assert(seq![parts[0]] =~= parts);
    } else {
        let init = parts.drop_last();
        assert forall|i: int| 0 <= i < init.len() implies !(#[trigger] init[i]).contains('-') by {
            assert(init[i] == parts[i]);
        }
        lemma_split_joined(init);
        lemma_split_after_hyphen(hyphen_joined(init), parts.last());
        assert(init.push(parts.last()) =~= parts);
    }
}

proof fn lemma_capitalized_plain(w: Seq<char>)
    requires
        w.len() > 0 ==> w[0] <= '\u{7f}',
        !w.contains('-'),
    ensures
        !capitalized(w).contains('-'),
{
    let c = capitalized(w);
    if c.contains('-') {
        let k = choose|k: int| 0 <= k < c.len() && c[k] == '-';
        assert(w.len() > 0);
        if k == 0 {
            assert(w[0] != '-');
        } else {
            assert(c[k] == w[k]);
        }
    }
}

proof fn lemma_decimal_plain(n: nat)
    ensures
        !decimal(n).contains('-'),
{
    lemma_decimal_digits(n);
    if decimal(n).contains('-') {
        let k = choose|k: int| 0 <= k < decimal(n).len() && decimal(n)[k] == '-';
        assert(crate::text::is_ascii_digit(decimal(n)[k]));
    }
}

/// A word phrase splits on its hyphens back into its words, and the number
/// after them if one was asked for, when no word holds a hyphen (and, for
/// capitalized words, each starts with an ASCII character).
pub proof fn law_word_phrase_splits_into_its_words(
    phrase: Seq<char>,
    palavras: Seq<String>,
    count: int,
    capitalizar: bool,
    incluir_numero: bool,
)
    requires
        is_word_phrase(phrase, palavras, count, capitalizar, incluir_numero),
        count >= 1,
        phrase_words(palavras, capitalizar),
    ensures
        splits_into_words(phrase, palavras, count, capitalizar, incluir_numero),
{
    let chosen = choose|chosen: Seq<Seq<char>>| #[trigger] phrase_of(phrase, palavras, count, capitalizar, incluir_numero, chosen);
    assert forall|i: int| 0 <= i < chosen.len() implies !(#[trigger] chosen[i]).contains('-') by {
        let j = choose|j: int| 0 <= j < palavras.len() && #[trigger] chosen[i] == (if capitalizar {
            capitalized(palavras[j]@)
        } else {
            palavras[j]@
        });
        assert(!palavras[j]@.contains('-'));
        if capitalizar {
            lemma_capitalized_plain(palavras[j]@);
        }
    }
    if incluir_numero {
        let n = choose|n: nat| 10 <= n < 100 && phrase == #[trigger] hyphen_joined(chosen) + seq!['-'] + decimal(n);
        let all = chosen.push(decimal(n));
        lemma_decimal_plain(n);
        assert(all.drop_last() =~= chosen);
        assert(hyphen_joined(all) == hyphen_joined(chosen) + seq!['-'] + decimal(n));
        assert forall|i: int| 0 <= i < all.len() implies !(#[trigger] all[i]).contains('-') by {
            if i < chosen.len() {
                assert(all[i] == chosen[i]);
            }
        }
        lemma_split_joined(all);
        assert(split_hyphens(phrase) == all);
        assert forall|i: int| 0 <= i < count implies exists|j: int| 0 <= j < palavras.len() && #[trigger] split_hyphens(phrase)[i] == (if capitalizar {
            capitalized(palavras[j]@)
        } else {
            palavras[j]@
        }) by {
            assert(all[i] == chosen[i]);
        }
    } else {
        lemma_split_joined(chosen);
    }
}

/// A "diceware" phrase: words drawn with repetition from `palavras`, joined
/// by hyphens, like `Cavalo-Jardim-Fogueira-42`. An empty word list is an
/// error.
pub fn gerar_por_palavras(quantidade: usize, capitalizar: bool, incluir_numero: bool, palavras: &Vec<String>) -> (r: Result<String, AppError>)
    ensures
        match r {
            Ok(s) => {
                &&& palavras@.len() > 0
                &&& is_word_phrase(s@, palavras@, word_count(quantidade), capitalizar, incluir_numero)
                &&& phrase_words(palavras@, capitalizar) ==> splits_into_words(
                    s@,
                    palavras@,
                    word_count(quantidade),
                    capitalizar,
                    incluir_numero,
                )
            },
            Err(e) => palavras@.len() == 0 && (e matches AppError::Internal(m) && m@ == "lista de palavras vazia"@),
        },
{
    let count: usize = if quantidade < 3 {
        3
    } else if quantidade > 8 {
        8
    } else {
        quantidade
    };
    if palavras.len() == 0 {
        return Err(AppError::Internal(owned("lista de palavras vazia")));
    }
    let mut senha = String::new();
    let ghost mut chosen: Seq<Seq<char>> = Seq::empty();
    let mut n: usize = 0;
    while n < count
        invariant
            n <= count,
            count == word_count(quantidade),
            palavras@.len() > 0,
            chosen.len() == n,
            senha@ == hyphen_joined(chosen),
            forall|i: int| 0 <= i < n ==> exists|j: int| 0 <= j < palavras@.len() && #[trigger] chosen[i] == (if capitalizar {
                capitalized(palavras@[j]@)
            } else {
                palavras@[j]@
            }),
        decreases count - n,
    {
        let palavra: &String = match choose_word(palavras.as_slice()) {
            Some(w) => w,
            None => {
                return Err(AppError::Internal(owned("lista de palavras vazia")));
            },
        };
        let word = if capitalizar {
            capitalizar_palavra(palavra.as_str())
        } else {
            owned(palavra.as_str())
        };
        let ghost before = chosen;
        if n > 0 {
            push_char(&mut senha, '-');
        }
        senha.append(word.as_str());
        proof {
            chosen = before.push(word@);
            assert(chosen.drop_last() =~= before);
            if n == 0 {
                assert(before =~= Seq::<Seq<char>>::empty());
            }
            let j = choose|j: int| 0 <= j < palavras@.len() && palavras@[j] == *palavra;
            assert(chosen[n as int] == (if capitalizar {
                capitalized(palavras@[j]@)
            } else {
                palavras@[j]@
            }));
            assert forall|i: int| 0 <= i < n + 1 implies exists|j: int| 0 <= j < palavras@.len() && #[trigger] chosen[i] == (if capitalizar {
                capitalized(palavras@[j]@)
            } else {
                palavras@[j]@
            }) by {
                if i < n {
                    assert(chosen[i] == before[i]);
                }
            }
        }
        n = n + 1;
    }
    if incluir_numero {
        let number = random_in_range(10, 100);
        let text = i64_to_decimal(number as i64);
        let ghost body = senha@;
        push_char(&mut senha, '-');
        senha.append(text.as_str());
        proof {
            assert(signed_decimal(number as int) == decimal(number as nat));
            assert(senha@ =~= hyphen_joined(chosen) + seq!['-'] + decimal(number as nat));
        }
    }
    proof {
        assert(phrase_of(senha@, palavras@, count as int, capitalizar, incluir_numero, chosen));
        if phrase_words(palavras@, capitalizar) {
            law_word_phrase_splits_into_its_words(senha@, palavras@, count as int, capitalizar, incluir_numero);
        }
    }
    Ok(senha)
}

pub open spec fn any_char(s: Seq<char>, p: spec_fn(char) -> bool) -> bool {
    exists|i: int| 0 <= i < s.len() && p(#[trigger] s[i])
}

/// One point per criterion met: at least 8 bytes, at least 12 bytes, an
/// uppercase letter, an ASCII digit, a character that is not alphanumeric.
pub open spec fn strength_score(s: Seq<char>) -> int {
    (if encode_utf8(s).len() >= 8 { 1int } else { 0int })
    + (if encode_utf8(s).len() >= 12 { 1int } else { 0int })
    + (if any_char(s, |c: char| char_is_upper(c)) { 1int } else { 0int })
    + (if any_char(s, |c: char| is_ascii_digit(c)) { 1int } else { 0int })
    + (if any_char(s, |c: char| !char_is_alnum(c)) { 1int } else { 0int })
}

pub open spec fn strength_of_score(score: int) -> ForcaSenha {
    if score <= 1 {
        ForcaSenha::Fraca
    } else if score == 2 {
        ForcaSenha::Media
    } else if score == 3 {
        ForcaSenha::Forte
    } else {
        ForcaSenha::MuitoForte
    }
}

fn has_char(chars: &Vec<char>, which: u8) -> (r: bool)
    requires
        which < 3,
    ensures
        which == 0 ==> r == any_char(chars@, |c: char| char_is_upper(c)),
        which == 1 ==> r == any_char(chars@, |c: char| is_ascii_digit(c)),
        which == 2 ==> r == any_char(chars@, |c: char| !char_is_alnum(c)),
{
    let mut i: usize = 0;
    while i < chars.len()
        invariant
            0 <= i <= chars@.len(),
            which < 3,
            which == 0 ==> forall|j: int| 0 <= j < i ==> !char_is_upper(#[trigger] chars@[j]),
            which == 1 ==> forall|j: int| 0 <= j < i ==> !is_ascii_digit(#[trigger] chars@[j]),
            which == 2 ==> forall|j: int| 0 <= j < i ==> char_is_alnum(#[trigger] chars@[j]),
        decreases chars@.len() - i,
    {
        let c = chars[i];
        let hit = if which == 0 {
            char_is_uppercase(c)
        } else if which == 1 {
            '0' <= c && c <= '9'
        } else {
            !char_is_alphanumeric(c)
        };
        if hit {
            return true;
        }
        i = i + 1;
    }
    false
}

/// The strength of a password, scored as `strength_score` says.
pub fn calcular_forca(senha: &str) -> (f: ForcaSenha)
    ensures
        f == strength_of_score(strength_score(senha@)),
{
    let len = senha.as_bytes().len();
    let chars = chars_of(senha);
    assert(len == encode_utf8(senha@).len());
    let mut score: u8 = 0;
    if len >= 8 {
        score = score + 1;
    }
    if len >= 12 {
        score = score + 1;
    }
    if has_char(&chars, 0) {
        score = score + 1;
    }
    if has_char(&chars, 1) {
        score = score + 1;
    }
    if has_char(&chars, 2) {
        score = score + 1;
    }
    assert(score as int == strength_score(senha@));
    if score <= 1 {
        ForcaSenha::Fraca
    } else if score == 2 {
        ForcaSenha::Media
    } else if score == 3 {
        ForcaSenha::Forte
    } else {
        ForcaSenha::MuitoForte
    }
}

/// The generator endpoint: a random password or a word phrase, with its
/// strength.
pub fn gerar_senha(req: &GerarSenhaRequest, palavras: &Vec<String>) -> (r: Result<GerarSenhaResponse, AppError>)
    ensures
        match r {
            Ok(resp) => resp.forca == strength_of_score(strength_score(resp.senha@)) && match *req {
                GerarSenhaRequest::Aleatorio { tamanho, usar_maiusculas, usar_numeros, usar_especiais } => {
                    &&& resp.senha@.len() == tamanho
                    &&& forall|i: int|
                        0 <= i < resp.senha@.len() ==> password_alphabet(usar_maiusculas, usar_numeros, usar_especiais).contains(
                            #[trigger] resp.senha@[i],
                        )
                },
                GerarSenhaRequest::Palavras { quantidade, capitalizar, incluir_numero } => {
                    &&& is_word_phrase(resp.senha@, palavras@, word_count(quantidade), capitalizar, incluir_numero)
                    &&& phrase_words(palavras@, capitalizar) ==> splits_into_words(
                        resp.senha@,
                        palavras@,
                        word_count(quantidade),
                        capitalizar,
                        incluir_numero,
                    )
                },
            },
            Err(e) => req is Palavras && palavras@.len() == 0 && (e matches AppError::Internal(m) && m@
                == "lista de palavras vazia"@),
        },
{
    let senha = match req {
        GerarSenhaRequest::Aleatorio { tamanho, usar_maiusculas, usar_numeros, usar_especiais } => gerar_aleatoria(
            *tamanho,
            *usar_maiusculas,
            *usar_numeros,
            *usar_especiais,
        ),
        GerarSenhaRequest::Palavras { quantidade, capitalizar, incluir_numero } => gerar_por_palavras(
            *quantidade,
            *capitalizar,
            *incluir_numero,
            palavras,
        )?,
    };
    let forca = calcular_forca(senha.as_str());
    Ok(GerarSenhaResponse { senha, forca })
}

/// A password of ASCII lowercase letters and digits only.
pub open spec fn lowercase_and_digits(s: Seq<char>) -> bool {
    forall|i: int| 0 <= i < s.len() ==> is_ascii_lowercase(#[trigger] s[i]) || is_ascii_digit(s[i])
}

proof fn lemma_lowercase_and_digits_score(s: Seq<char>)
    requires
        lowercase_and_digits(s),
    ensures
        encode_utf8(s).len() == s.len(),
        !any_char(s, |c: char| char_is_upper(c)),
        !any_char(s, |c: char| !char_is_alnum(c)),
{
    assert(is_ascii_chars(s)) by {
        assert forall|i: int| 0 <= i < s.len() implies '\0' <= #[trigger] s[i] <= '\u{7f}' by {
            assert(is_ascii_lowercase(s[i]) || is_ascii_digit(s[i]));
        }
    }
    vstd::utf8::is_ascii_chars_encode_utf8(s);
    if any_char(s, |c: char| char_is_upper(c)) {
        let i = choose|i: int| 0 <= i < s.len() && (|c: char| char_is_upper(c))(#[trigger] s[i]);
        assert(is_ascii_lowercase(s[i]) || is_ascii_digit(s[i]));
    }
    if any_char(s, |c: char| !char_is_alnum(c)) {
        let i = choose|i: int| 0 <= i < s.len() && (|c: char| !char_is_alnum(c))(#[trigger] s[i]);
        assert(is_ascii_lowercase(s[i]) || is_ascii_digit(s[i]));
    }
}

/// A password of at least 12 lowercase letters and digits, with a digit,
/// scores three points (8 bytes, 12 bytes, a digit): `Forte`. With 8 to 11
/// such characters it scores two: `Media`.
pub proof fn law_length_points_of_lowercase_passwords_with_a_digit(s: Seq<char>)
    requires
        lowercase_and_digits(s),
        exists|i: int| 0 <= i < s.len() && is_ascii_digit(#[trigger] s[i]),
    ensures
        s.len() >= 12 ==> strength_score(s) == 3 && strength_of_score(strength_score(s)) == ForcaSenha::Forte,
        8 <= s.len() < 12 ==> strength_score(s) == 2 && strength_of_score(strength_score(s)) == ForcaSenha::Media,
{
    lemma_lowercase_and_digits_score(s);
    let i = choose|i: int| 0 <= i < s.len() && is_ascii_digit(#[trigger] s[i]);
    assert((|c: char| is_ascii_digit(c))(s[i]));
}

/// Lengthening a password of lowercase letters and digits from 8 to 11 bytes
/// to 12 bytes or more with lowercase letters raises its score by exactly
/// one: 12 bytes count as a point of their own.
pub proof fn law_twelve_bytes_add_one_point(s: Seq<char>, t: Seq<char>)
    requires
        lowercase_and_digits(s),
        forall|i: int| 0 <= i < t.len() ==> is_ascii_lowercase(#[trigger] t[i]),
        8 <= s.len() < 12,
        s.len() + t.len() >= 12,
    ensures
        strength_score(s + t) == strength_score(s) + 1,
{
    let u = s + t;
    assert(lowercase_and_digits(u)) by {
        assert forall|i: int| 0 <= i < u.len() implies is_ascii_lowercase(#[trigger] u[i]) || is_ascii_digit(u[i]) by {
            if i < s.len() {
                assert(u[i] == s[i]);
            } else {
                assert(u[i] == t[i - s.len()]);
            }
        }
    }
    lemma_lowercase_and_digits_score(s);
    lemma_lowercase_and_digits_score(u);
    let ds = any_char(s, |c: char| is_ascii_digit(c));
    let du = any_char(u, |c: char| is_ascii_digit(c));
    if ds {
        let i = choose|i: int| 0 <= i < s.len() && (|c: char| is_ascii_digit(c))(#[trigger] s[i]);
        assert(u[i] == s[i]);
        assert((|c: char| is_ascii_digit(c))(u[i]));
    }
    if du {
        let i = choose|i: int| 0 <= i < u.len() && (|c: char| is_ascii_digit(c))(#[trigger] u[i]);
        if i < s.len() {
            assert(u[i] == s[i]);
            assert((|c: char| is_ascii_digit(c))(s[i]));
        } else {
            assert(u[i] == t[i - s.len()]);
        }
    }
    assert(ds == du);
}

/// A random password drawn without special characters holds only ASCII
/// letters and digits, all of them alphanumeric.
pub proof fn law_plain_alphabet_is_alphanumeric(usar_maiusculas: bool, usar_numeros: bool, c: char)
    requires
        password_alphabet(usar_maiusculas, usar_numeros, false).contains(c),
    ensures
        is_ascii_lowercase(c) || is_ascii_uppercase(c) || is_ascii_digit(c),
{
    let a = password_alphabet(usar_maiusculas, usar_numeros, false);
    let i = choose|i: int| 0 <= i < a.len() && a[i] == c;
    let l = lowercase_letters();
    let u = if usar_maiusculas { uppercase_letters() } else { Seq::<char>::empty() };
    let d = if usar_numeros { digits() } else { Seq::<char>::empty() };
    assert(a =~= l + u + d + Seq::<char>::empty());
    if i < 26 {
        let b = (97 + i) as u8;
        assert((b as char) as int == b as int);
    } else if i < 26 + u.len() {
        let b = (65 + (i - 26)) as u8;
        assert((b as char) as int == b as int);
    } else {
        let b = (48 + (i - 26 - u.len())) as u8;
        assert((b as char) as int == b as int);
    }
}

} // verus!
