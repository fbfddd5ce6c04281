//! Building the texts that values are shown as.

use itertools::Itertools;
use vstd::prelude::*;

verus! {

/// The digit `d` as a character.
pub open spec fn digit(d: nat) -> char {
    (48 + d) as char
}

/// The number `n` in decimal notation.
pub open spec fn decimal(n: nat) -> Seq<char>
    decreases n,
{
    if n < 10 {
        seq![digit(n)]
    } else {
        decimal(n / 10).push(digit(n % 10))
    }
}

/// The texts in order, with `separator` between each two.
pub open spec fn joined(texts: Seq<Seq<char>>, separator: Seq<char>) -> Seq<char> {
    if texts.len() == 0 {
        Seq::empty()
    } else {
        texts.skip(1).fold_left(
            texts[0],
            |line: Seq<char>, text: Seq<char>| line + separator + text,
        )
    }
}

/// A value that can be shown as a text.
pub trait Describe {
    /// The text.
    spec fn described(&self) -> Seq<char>;

    /// Gives the text.
    fn describe(&self) -> (r: String)
        ensures
            r@ == self.described(),
    ;
}

impl Describe for String {
    /// A string is shown as it is.
    open spec fn described(&self) -> Seq<char> {
        self@
    }

    fn describe(&self) -> (r: String) {
        self.clone()
    }
}

fn digit_text(d: u64) -> (r: &'static str)
    requires
        d < 10,
    ensures
        r@ == seq![digit(d as nat)],
{
    proof {
        reveal_strlit("0");
        reveal_strlit("1");
        reveal_strlit("2");
        reveal_strlit("3");
        reveal_strlit("4");
        reveal_strlit("5");
        reveal_strlit("6");
        reveal_strlit("7");
        reveal_strlit("8");
        reveal_strlit("9");
    }
    let text: &'static str = match d {
        0 => "0",
        1 => "1",
        2 => "2",
        3 => "3",
        4 => "4",
        5 => "5",
        6 => "6",
        7 => "7",
        8 => "8",
        _ => "9",
    };
    assert(text@ =~= seq![digit(d as nat)]);
    text
}

/// Writes a number in decimal notation.
pub fn decimal_text(n: u64) -> (r: String)
    ensures
        r@ == decimal(n as nat),
    decreases n,
{
    if n < 10 {
        digit_text(n).to_owned()
    } else {
        let mut text: String = decimal_text(n / 10);
        text.append(digit_text(n % 10));
        assert(text@ =~= decimal(n as nat));
        text
    }
}

/// `itertools::Itertools::join`: the texts in order with the separator between each two; for no
/// texts the empty text.
#[verifier::external_body]
pub(crate) fn join_texts(texts: &Vec<String>, separator: &str) -> (r: String)
    ensures
        r@ == joined(texts@.map_values(|t: String| t@), separator@),
{
    texts.iter().join(separator)
}

/// The number that a text of digits stands for.
pub open spec fn number(text: Seq<char>) -> nat
    decreases text.len(),
{
    if text.len() == 0 {
        0
    } else {
        number(text.drop_last()) * 10 + (text.last() as nat - '0' as nat) as nat
    }
}

/// The decimal notation of a number is made of digits, stands for that number, and has no leading zero
/// unless it is a single digit.
pub proof fn lemma_decimal(n: nat)
    ensures
        decimal(n).len() > 0,
        number(decimal(n)) == n,
        forall|i: int| 0 <= i < decimal(n).len() ==> '0' <= #[trigger] decimal(n)[i] <= '9',
        decimal(n).len() > 1 ==> decimal(n)[0] != '0',
    decreases n,
{
    if n < 10 {
        assert(decimal(n).drop_last() =~= Seq::<char>::empty());
        assert(number(Seq::<char>::empty()) == 0);
    } else {
        lemma_decimal(n / 10);
        assert(decimal(n).drop_last() =~= decimal(n / 10));
        assert(decimal(n)[0] == decimal(n / 10)[0]);
        if n / 10 < 10 {
            assert(decimal(n / 10)[0] == digit(n / 10));
        } else {
            assert(decimal(n / 100).len() > 0) by {
                lemma_decimal(n / 100);
            }
            assert(n / 10 / 10 == n / 100);
            assert(decimal(n / 10).len() > 1);
        }
    }
}

/// No texts are joined to the empty text, one text to itself, and a further text comes behind the others
/// and a separator.
pub proof fn lemma_joined(texts: Seq<Seq<char>>, last: Seq<char>, separator: Seq<char>)
    ensures
        joined(Seq::empty(), separator) == Seq::<char>::empty(),
        joined(seq![last], separator) == last,
        texts.len() > 0 ==> joined(texts.push(last), separator) == joined(texts, separator)
            + separator + last,
{
    let step = |line: Seq<char>, text: Seq<char>| line + separator + text;
    assert(seq![last].skip(1) =~= Seq::<Seq<char>>::empty());
    reveal_with_fuel(Seq::fold_left, 2);
    if texts.len() > 0 {
        assert(texts.push(last).skip(1) =~= texts.skip(1).push(last));
        assert(texts.skip(1).push(last).drop_last() =~= texts.skip(1));
    }
}

} // verus!
