//! Random passwords.
//!
//! A password shows at least one character of each class that was asked
//! for, is filled up to its length from all of those classes, and is
//! shuffled. The random draws and the strength estimate come from outside;
//! whatever they hand back, the result has the length and the classes that
//! were asked for.

use vstd::prelude::*;
use vstd::seq_lib::{to_multiset_contains, to_multiset_len};
use crate::error::ConfigError;
use crate::opts::GenpassOpts;

verus! {

#[verifier::external_type_specification]
#[verifier::external_body]
pub struct ExThreadRng(rand::rngs::ThreadRng);

/// The classes of characters that a password can draw from.
#[derive(Debug, Clone, Copy, PartialEq, Eq, Structural)]
pub enum CharClass {
    Uppercase,
    Lowercase,
    Digit,
    Symbol,
}

/// The characters from `first` to `last`, in order.
pub open spec fn char_range(first: char, last: char) -> Seq<char> {
    Seq::new((last as int - first as int + 1) as nat, |i: int| (first as int + i) as char)
}

/// The symbols that a password can show.
pub open spec fn symbol_chars() -> Seq<char> {
    seq!['!', '@', '#', '$', '%', '^', '&', '*', '_']
}

/// The characters of `class`, in the order in which they are drawn from.
pub open spec fn class_chars(class: CharClass) -> Seq<char> {
    match class {
        CharClass::Uppercase => char_range('A', 'Z'),
        CharClass::Lowercase => char_range('a', 'z'),
        CharClass::Digit => char_range('0', '9'),
        CharClass::Symbol => symbol_chars(),
    }
}

/// `c` belongs to `class`.
pub open spec fn in_class(class: CharClass, c: char) -> bool {
    match class {
        CharClass::Uppercase => 'A' <= c && c <= 'Z',
        CharClass::Lowercase => 'a' <= c && c <= 'z',
        CharClass::Digit => '0' <= c && c <= '9',
        CharClass::Symbol => c == '!' || c == '@' || c == '#' || c == '$' || c == '%' || c == '^'
            || c == '&' || c == '*' || c == '_',
    }
}

/// The characters listed for a class are those that belong to it.
pub proof fn lemma_class_chars(class: CharClass, c: char)
    ensures
        class_chars(class).contains(c) <==> in_class(class, c),
{
    let chars = class_chars(class);
    if chars.contains(c) {
        let i = choose|i: int| 0 <= i < chars.len() && chars[i] == c;
        assert(chars[i] == c);
    }
    if in_class(class, c) {
        match class {
            CharClass::Uppercase => {
                assert(chars[c as int - 'A'] == c);
            },
            CharClass::Lowercase => {
                assert(chars[c as int - 'a'] == c);
            },
            CharClass::Digit => {
                assert(chars[c as int - '0'] == c);
            },
            CharClass::Symbol => {
                assert(chars[0] == '!' && chars[1] == '@' && chars[2] == '#' && chars[3] == '$'
                    && chars[4] == '%' && chars[5] == '^' && chars[6] == '&' && chars[7] == '*'
                    && chars[8] == '_');
            },
        }
    }
}

impl CharClass {
    /// The characters of the class, in order.
    pub fn chars(self) -> (chars: Vec<char>)
        ensures
            chars@ == class_chars(self),
    {
        match self {
            CharClass::Uppercase => range_chars('A', 'Z'),
            CharClass::Lowercase => range_chars('a', 'z'),
            CharClass::Digit => range_chars('0', '9'),
            CharClass::Symbol => {
                let chars = vec!['!', '@', '#', '$', '%', '^', '&', '*', '_'];
                assert(chars@ =~= symbol_chars());
                chars
            },
        }
    }
}

/// The ASCII characters from `first` to `last`, in order.
fn range_chars(first: char, last: char) -> (chars: Vec<char>)
    requires
        first <= last <= '\x7f',
    ensures
        chars@ == char_range(first, last),
{
    let mut chars: Vec<char> = Vec::new();
    let end: u8 = last as u8;
    let mut code: u8 = first as u8;
    while code < end
        invariant
            first as int <= code <= end,
            end == last as int,
            chars@ == Seq::new((code - first as int) as nat, |i: int| (first as int + i) as char),
        decreases end - code,
    {
        chars.push(code as char);
        code = code + 1;
        assert(chars@ =~= Seq::new(
            (code - first as int) as nat,
            |i: int| (first as int + i) as char,
        ));
    }
    chars.push(last);
    assert(chars@ =~= char_range(first, last));
    chars
}

/// `opts` asks for characters of `class`.
pub open spec fn requested(opts: GenpassOpts, class: CharClass) -> bool {
    match class {
        CharClass::Uppercase => opts.uppercase,
        CharClass::Lowercase => opts.lowercase,
        CharClass::Digit => opts.digits,
        CharClass::Symbol => opts.symbols,
    }
}

/// The number of classes that `opts` asks for.
pub open spec fn class_count(opts: GenpassOpts) -> nat {
    (if opts.uppercase {
        1nat
    } else {
        0nat
    }) + (if opts.lowercase {
        1nat
    } else {
        0nat
    }) + (if opts.digits {
        1nat
    } else {
        0nat
    }) + (if opts.symbols {
        1nat
    } else {
        0nat
    })
}

/// Why no password can be made for `opts`, or `None` where one can: some
/// class must be asked for, and the length must leave room for one
/// character of each class that is.
pub open spec fn rejection(opts: GenpassOpts) -> Option<ConfigError> {
    if class_count(opts) == 0 {
        Some(ConfigError::NoCharacterClass)
    } else if opts.length < class_count(opts) {
        Some(ConfigError::LengthTooShort { length: opts.length, required: class_count(opts) as u8 })
    } else {
        None
    }
}

/// `c` belongs to a class that `opts` asks for.
pub open spec fn allowed(opts: GenpassOpts, c: char) -> bool {
    exists|class: CharClass| requested(opts, class) && #[trigger] in_class(class, c)
}

/// Every character of `text` belongs to a class that `opts` asks for.
pub open spec fn all_allowed(opts: GenpassOpts, text: Seq<char>) -> bool {
    forall|i: int| 0 <= i < text.len() ==> allowed(opts, #[trigger] text[i])
}

/// Some character of `text` belongs to `class`.
pub open spec fn shows(text: Seq<char>, class: CharClass) -> bool {
    exists|i: int| 0 <= i < text.len() && in_class(class, #[trigger] text[i])
}

/// `text` is a password for `opts`: it has the length asked for, shows
/// every class asked for, and holds no character of any other class.
pub open spec fn is_password_for(opts: GenpassOpts, text: Seq<char>) -> bool {
    &&& text.len() == opts.length
    &&& forall|class: CharClass| requested(opts, class) ==> #[trigger] shows(text, class)
    &&& forall|class: CharClass| !requested(opts, class) ==> !#[trigger] shows(text, class)
    &&& all_allowed(opts, text)
}

/// A password and the estimate of its strength, from 0 for the weakest to 4.
#[derive(Debug)]
pub struct GeneratedPassword {
    pub text: String,
    pub score: u8,
}

/// The digit for `value`, which is below ten.
pub open spec fn digit_char(value: nat) -> char {
    ('0' as int + value) as char
}

/// `n` in decimal digits, without leading zeros.
pub open spec fn decimal(n: nat) -> Seq<char>
    decreases n,
{
    if n < 10 {
        seq![digit_char(n)]
    } else {
        decimal(n / 10).push(digit_char(n % 10))
    }
}

/// The line that reports a password with its score.
pub open spec fn report_text(text: Seq<char>, score: u8) -> Seq<char> {
    "Password: "@ + text + " Score: "@ + decimal(score as nat)
}

/// The digit for `value`.
fn digit(value: u8) -> (c: char)
    requires
        value < 10,
    ensures
        c == digit_char(value as nat),
{
    let zero: u8 = '0' as u8;
    (zero + value) as char
}

impl GeneratedPassword {
    /// The line that reports the password with its score.
    pub fn report(&self) -> (line: String)
        ensures
            line@ == report_text(self.text@, self.score),
    {
        let mut digits: Vec<char> = Vec::new();
        let n = self.score;
        if n >= 100 {
            digits.push(digit(n / 100));
        }
        if n >= 10 {
            digits.push(digit((n / 10) % 10));
        }
        digits.push(digit(n % 10));
        proof {
            reveal_with_fuel(decimal, 3);
            assert(digits@ =~= decimal(n as nat));
        }
        let number = string_of_chars(&digits);
        "Password: ".to_owned().concat(self.text.as_str()).concat(" Score: ").concat(
            number.as_str(),
        )
    }
}

/// No character belongs to two classes.
pub proof fn lemma_classes_disjoint(first: CharClass, second: CharClass, c: char)
    requires
        in_class(first, c),
        in_class(second, c),
    ensures
        first == second,
{
}

/// Text whose characters all belong to classes that are asked for shows no
/// class that is not.
pub proof fn lemma_allowed_shows_nothing_else(opts: GenpassOpts, text: Seq<char>)
    requires
        all_allowed(opts, text),
    ensures
        forall|class: CharClass| !requested(opts, class) ==> !#[trigger] shows(text, class),
{
    assert forall|class: CharClass| !requested(opts, class) implies !#[trigger] shows(
        text,
        class,
    ) by {
        if shows(text, class) {
            let i = choose|i: int| 0 <= i < text.len() && in_class(class, #[trigger] text[i]);
            assert(allowed(opts, text[i]));
            let other = choose|other: CharClass|
                requested(opts, other) && #[trigger] in_class(other, text[i]);
            lemma_classes_disjoint(class, other, text[i]);
        }
    }
}

/// Calls `rand::rng` for a handle to the thread's generator.
#[verifier::external_body]
fn thread_rng() -> rand::rngs::ThreadRng {
    rand::rng()
}

/// Calls `rand::seq::IteratorRandom::choose` on the characters of `pool`.
/// It returns `None` exactly where the pool is empty, and otherwise one of
/// the pool's characters; which one is left open.
#[verifier::external_body]
fn choose_char(pool: &Vec<char>, rng: &mut rand::rngs::ThreadRng) -> (pick: Option<char>)
    ensures
        pick is None <==> pool@.len() == 0,
        pick matches Some(c) ==> pool@.contains(c),
{
    rand::seq::IteratorRandom::choose(pool.iter().copied(), rng)
}

/// Calls `rand::random_range` on the range from 0 up to, not including,
/// `bound`. The range must not be empty; the result lies in it.
#[verifier::external_body]
fn random_below(bound: usize) -> (index: usize)
    requires
        bound > 0,
    ensures
        index < bound,
{
    rand::random_range(0..bound)
}

/// Calls `rand::seq::SliceRandom::shuffle`, which swaps elements in place:
/// afterwards the vector holds the same characters, each as often as before.
#[verifier::external_body]
fn shuffle_chars(chars: &mut Vec<char>, rng: &mut rand::rngs::ThreadRng)
    ensures
        final(chars)@.to_multiset() == old(chars)@.to_multiset(),
{
    rand::seq::SliceRandom::shuffle(chars.as_mut_slice(), rng)
}

/// Calls `String::from_iter` on the characters of `chars`: the string holds
/// them in order.
#[verifier::external_body]
fn string_of_chars(chars: &Vec<char>) -> (text: String)
    ensures
        text@ == chars@,
{
    String::from_iter(chars.iter())
}

/// Calls `zxcvbn::zxcvbn` without user inputs and turns the score of the
/// estimate into its number. The estimate looks at the year of the clock,
/// so the contract states only the range of the score.
#[verifier::external_body]
fn strength_score(password: &str) -> (score: u8)
    ensures
        score <= 4,
{
    u8::from(zxcvbn::zxcvbn(password, &[]).score())
}

/// Tells whether a password can be made for `opts`, and if not, why.
pub fn check_password_spec(opts: &GenpassOpts) -> (result: Result<(), ConfigError>)
    ensures
        match result {
            Ok(_) => rejection(*opts) is None,
            Err(error) => rejection(*opts) == Some(error),
        },
{
    let mut required: u8 = 0;
    if opts.uppercase {
        required = required + 1;
    }
    if opts.lowercase {
        required = required + 1;
    }
    if opts.digits {
        required = required + 1;
    }
    if opts.symbols {
        required = required + 1;
    }
    if required == 0 {
        Err(ConfigError::NoCharacterClass)
    } else if opts.length < required {
        Err(ConfigError::LengthTooShort { length: opts.length, required })
    } else {
        Ok(())
    }
}

/// Adds the characters of `class`, which `opts` asks for, to the pool
/// `chars`, and one of them, drawn at random, to `password`.
fn draw_from_class(
    opts: &GenpassOpts,
    class: CharClass,
    chars: &mut Vec<char>,
    password: &mut Vec<char>,
    rng: &mut rand::rngs::ThreadRng,
)
    requires
        requested(*opts, class),
        all_allowed(*opts, old(chars)@),
        all_allowed(*opts, old(password)@),
    ensures
        final(chars)@ == old(chars)@ + class_chars(class),
        final(chars)@.len() > 0,
        all_allowed(*opts, final(chars)@),
        final(password)@.len() == old(password)@.len() + 1,
        all_allowed(*opts, final(password)@),
        shows(final(password)@, class),
        forall|other: CharClass|
            shows(old(password)@, other) ==> #[trigger] shows(final(password)@, other),
{
    let mut pool = class.chars();
    let pick = choose_char(&pool, rng);
    assert(pool@.len() > 0);
    let c = pick.unwrap();
    proof {
        let drawn = password@;
        let pooled = chars@;
        lemma_class_chars(class, c);
        lemma_push_allowed(*opts, drawn, c);
        lemma_push_shows(drawn, c, class);
        assert forall|other: CharClass| shows(drawn, other) implies #[trigger] shows(
            drawn.push(c),
            other,
        ) by {
            lemma_push_shows(drawn, c, other);
        }
        assert forall|i: int| 0 <= i < (pooled + pool@).len() implies allowed(
            *opts,
            #[trigger] (pooled + pool@)[i],
        ) by {
            if i < pooled.len() {
                assert((pooled + pool@)[i] == pooled[i]);
            } else {
                let one = pool@[i - pooled.len()];
                assert(pool@.contains(one));
                lemma_class_chars(class, one);
            }
        }
    }
    chars.append(&mut pool);
    password.push(c);
}

/// Appending a character that is allowed to a text that is allowed gives a
/// text that is allowed.
proof fn lemma_push_allowed(opts: GenpassOpts, text: Seq<char>, c: char)
    requires
        all_allowed(opts, text),
        allowed(opts, c),
    ensures
        all_allowed(opts, text.push(c)),
{
    assert forall|i: int| 0 <= i < text.push(c).len() implies allowed(
        opts,
        #[trigger] text.push(c)[i],
    ) by {
        if i < text.len() {
            assert(text.push(c)[i] == text[i]);
        }
    }
}

/// Appending a character keeps what the text showed, and shows the class of
/// the character.
proof fn lemma_push_shows(text: Seq<char>, c: char, class: CharClass)
    ensures
        shows(text, class) ==> shows(text.push(c), class),
        in_class(class, c) ==> shows(text.push(c), class),
{
    let longer = text.push(c);
    if shows(text, class) {
        let i = choose|i: int| 0 <= i < text.len() && in_class(class, #[trigger] text[i]);
        assert(longer[i] == text[i]);
    }
    if in_class(class, c) {
        assert(longer[text.len() as int] == c);
    }
}

/// Two texts that hold the same characters equally often have the same
/// length, show the same classes, and are allowed together.
proof fn lemma_permutation_keeps_classes(opts: GenpassOpts, before: Seq<char>, after: Seq<char>)
    requires
        before.to_multiset() == after.to_multiset(),
    ensures
        after.len() == before.len(),
        all_allowed(opts, before) ==> all_allowed(opts, after),
        forall|class: CharClass| shows(before, class) ==> #[trigger] shows(after, class),
{
    to_multiset_len(before);
    to_multiset_len(after);
    if all_allowed(opts, before) {
        assert forall|i: int| 0 <= i < after.len() implies allowed(opts, #[trigger] after[i]) by {
            to_multiset_contains(after, after[i]);
            to_multiset_contains(before, after[i]);
            assert(after.contains(after[i]));
            let j = choose|j: int| 0 <= j < before.len() && before[j] == after[i];
            assert(allowed(opts, before[j]));
        }
    }
    assert forall|class: CharClass| shows(before, class) implies #[trigger] shows(
        after,
        class,
    ) by {
        let i = choose|i: int| 0 <= i < before.len() && in_class(class, #[trigger] before[i]);
        to_multiset_contains(before, before[i]);
        to_multiset_contains(after, before[i]);
        assert(before.contains(before[i]));
        let j = choose|j: int| 0 <= j < after.len() && after[j] == before[i];
        assert(in_class(class, after[j]));
    }
}

/// Makes a password of `length` characters from the classes that are asked
/// for. One character is drawn from each class, the rest from all of them
/// together, and the whole is shuffled. The request is rejected, before
/// anything is drawn, where no class is asked for or where `length` is
/// smaller than the number of classes. Otherwise the password has exactly
/// `length` characters, shows each class asked for and no other, and comes
/// with a strength score of at most 4.
pub fn process_genpass(
    length: u8,
    uppercase: bool,
    lowercase: bool,
    digits: bool,
    symbols: bool,
) -> (result: Result<GeneratedPassword, ConfigError>)
    ensures
        match result {
            Ok(password) => rejection((GenpassOpts { length, uppercase, lowercase, digits, symbols }))
                is None && is_password_for(
                (GenpassOpts { length, uppercase, lowercase, digits, symbols }),
                password.text@,
            ) && password.score <= 4,
            Err(error) => rejection((GenpassOpts { length, uppercase, lowercase, digits, symbols }))
                == Some(error),
        },
{
    let opts = GenpassOpts { length, uppercase, lowercase, digits, symbols };
    match check_password_spec(&opts) {
        Err(error) => {
            return Err(error);
        },
        Ok(_) => {},
    }
    let mut rng = thread_rng();
    let mut password: Vec<char> = Vec::new();
    let mut chars: Vec<char> = Vec::new();
    if uppercase {
        draw_from_class(&opts, CharClass::Uppercase, &mut chars, &mut password, &mut rng);
    }
    if lowercase {
        draw_from_class(&opts, CharClass::Lowercase, &mut chars, &mut password, &mut rng);
    }
    if digits {
        draw_from_class(&opts, CharClass::Digit, &mut chars, &mut password, &mut rng);
    }
    if symbols {
        draw_from_class(&opts, CharClass::Symbol, &mut chars, &mut password, &mut rng);
    }
    while password.len() < length as usize
        invariant
            chars@.len() > 0,
            password@.len() <= length,
            all_allowed(opts, chars@),
            all_allowed(opts, password@),
            forall|class: CharClass| requested(opts, class) ==> #[trigger] shows(password@, class),
        decreases length - password@.len(),
    {
        let at = random_below(chars.len());
        let c = chars[at];
        proof {
            let drawn = password@;
            lemma_push_allowed(opts, drawn, c);
            assert forall|class: CharClass| requested(opts, class) implies #[trigger] shows(
                drawn.push(c),
                class,
            ) by {
                lemma_push_shows(drawn, c, class);
            }
        }
        password.push(c);
    }
    let ghost filled = password@;
    shuffle_chars(&mut password, &mut rng);
    proof {
        lemma_permutation_keeps_classes(opts, filled, password@);
        lemma_allowed_shows_nothing_else(opts, password@);
    }
    let text = string_of_chars(&password);
    let score = strength_score(text.as_str());
    Ok(GeneratedPassword { text, score })
}

} // verus!
