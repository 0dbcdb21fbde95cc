//! The owl's answer to an inquiry: a greeting, the inquiry quoted back, and
//! one line for every number found in it.

use vstd::prelude::*;
use crate::text::{decimal, group_thousands, opt_view, is_whitespace, separate_with_spaces, unicode_white_space};

verus! {

/// A message that is empty or all white space (`str::trim` leaves nothing).
pub open spec fn is_blank(msg: Seq<char>) -> bool {
    forall|i: int| 0 <= i < msg.len() ==> unicode_white_space(#[trigger] msg[i])
}

/// The message text of an inquiry; none reads as the empty message.
pub open spec fn message_of(inquery: Option<Seq<char>>) -> Seq<char> {
    match inquery {
        Some(m) => m,
        None => Seq::empty(),
    }
}

/// `n` written with its digits in groups of three, separated by spaces.
pub open spec fn spaced(n: nat) -> Seq<char> {
    group_thousands(decimal(n))
}

/// The word for a count of birds, declined after the count.
pub open spec fn birds_word(count: nat) -> Seq<char> {
    if count == 1 {
        "ptáčka"@
    } else if count <= 4 {
        "ptáčky"@
    } else {
        "ptáčků"@
    }
}

/// The word for a count of owls, declined after the count.
pub open spec fn owls_word(count: nat) -> Seq<char> {
    if count == 1 {
        "sovu"@
    } else if count <= 4 {
        "sovy"@
    } else {
        "sov"@
    }
}

/// `n` has a single bit set or is zero.
pub open spec fn single_bit(n: u64) -> bool {
    n & ((n - 1) as u64) == 0
}

/// What the owl says of a number: a few numbers have their own saying;
/// a power of two is binary; a small one buys nothing; up to 15 000 it
/// buys a bird for every 50, and above that an owl for every 15 000.
pub open spec fn saying(n: u64) -> Seq<char> {
    if n == 0 {
        "∞ ptáčků užije."@
    } else if n == 7 {
        "devať nezkušiš."@
    } else if n == 9 {
        "kabel najdeš."@
    } else if n == 42 {
        "našel odpověď."@
    } else if n == 69 {
        "nice."@
    } else if n == 420 {
        "tě Michal najde."@
    } else if is_power_of_two(n as nat) {
        "binárků užiješ."@
    } else if n < 50 {
        "ani ptáčka nekoupíš."@
    } else if n < 15_000 {
        "koupíš "@ + spaced((n / 50) as nat) + " "@ + birds_word((n / 50) as nat) + "."@
    } else {
        "koupíš "@ + spaced((n / 15_000) as nat) + " "@ + owls_word((n / 15_000) as nat) + "."@
    }
}

/// The line for one number.
pub open spec fn number_line(n: u64) -> Seq<char> {
    "\nZa "@ + spaced(n as nat) + " si "@ + saying(n)
}

/// The lines for the numbers, in order.
pub open spec fn number_lines(numbers: Seq<u64>) -> Seq<char>
    decreases numbers.len(),
{
    if numbers.len() == 0 {
        Seq::empty()
    } else {
        number_lines(numbers.drop_last()) + number_line(numbers.last())
    }
}

/// The greeting, with the inquiry quoted on a line of its own when it is to
/// be included and there is one.
pub open spec fn greeting(inquery: Option<Seq<char>>, include_message: bool) -> Seq<char> {
    match inquery {
        Some(msg) => if include_message {
            "> 🦉 Hoo!"@ + "\n> "@ + msg
        } else {
            "> 🦉 Hoo!"@
        },
        None => "> 🦉 Hoo!"@,
    }
}

/// The whole answer: the greeting, then, unless the message is blank, one
/// line for each number found in it.
pub open spec fn response(inquery: Option<Seq<char>>, include_message: bool, numbers: Seq<u64>) -> Seq<char> {
    if is_blank(message_of(inquery)) {
        greeting(inquery, include_message)
    } else {
        greeting(inquery, include_message) + number_lines(numbers)
    }
}

/// Whether a message is empty or all white space: the owl then reads no
/// numbers in it.
pub fn is_blank_message(msg: &str) -> (b: bool)
    ensures
        b == is_blank(msg@),
{
    let chars = crate::text::to_chars(msg);
    let mut i: usize = 0;
    while i < chars.len()
        invariant
            i <= chars.len(),
            chars@ == msg@,
            forall|j: int| 0 <= j < i ==> unicode_white_space(#[trigger] msg@[j]),
        decreases chars.len() - i,
    {
        if !is_whitespace(chars[i]) {
            return false;
        }
        i += 1;
    }
    true
}

/// Appends the saying for `n`.
fn push_saying(out: &mut String, n: u64)
    ensures
        final(out)@ == old(out)@ + saying(n),
{
    proof {
        if n > 0 {
            law_single_bit_is_power_of_two(n);
        }
    }
    if n == 0 {
        out.append("∞ ptáčků užije.");
    } else if n == 7 {
        out.append("devať nezkušiš.");
    } else if n == 9 {
        out.append("kabel najdeš.");
    } else if n == 42 {
        out.append("našel odpověď.");
    } else if n == 69 {
        out.append("nice.");
    } else if n == 420 {
        out.append("tě Michal najde.");
    } else if (n & (n - 1)) == 0 {
        out.append("binárků užiješ.");
    } else if n < 50 {
        out.append("ani ptáčka nekoupíš.");
    } else if n < 15_000 {
        let birds = n / 50;
        out.append("koupíš ");
        let count = separate_with_spaces(birds);
        out.append(count.as_str());
        out.append(" ");
        if birds == 1 {
            out.append("ptáčka");
        } else if birds <= 4 {
            out.append("ptáčky");
        } else {
            out.append("ptáčků");
        }
        out.append(".");
    } else {
        let owls = n / 15_000;
        out.append("koupíš ");
        let count = separate_with_spaces(owls);
        out.append(count.as_str());
        out.append(" ");
        if owls == 1 {
            out.append("sovu");
        } else if owls <= 4 {
            out.append("sovy");
        } else {
            out.append("sov");
        }
        out.append(".");
    }
}

/// The owl's answer to `inquery`. `include_message` says whether the
/// inquiry is quoted back; `numbers` are the numbers read in it (see
/// [`crate::numbers::NumberScanner`]), of which nothing is said when the
/// message is blank.
pub fn respond_to_numbers(inquery: Option<String>, include_message: bool, numbers: &Vec<u64>) -> (answer: String)
    ensures
        answer@ == response(opt_view(inquery), include_message, numbers@),
{
    let blank = match &inquery {
        Some(m) => is_blank_message(m.as_str()),
        None => true,
    };
    let mut answer = String::from_str("> 🦉 Hoo!");
    match &inquery {
        Some(msg) => {
            if include_message {
                answer.append("\n> ");
                answer.append(msg.as_str());
            }
        },
        None => {},
    }
    proof {
        assert(answer@ == greeting(opt_view(inquery), include_message));
    }
    if !blank {
        let ghost start = answer@;
        let mut i: usize = 0;
        while i < numbers.len()
            invariant
                i <= numbers.len(),
                answer@ == start + number_lines(numbers@.take(i as int)),
            decreases numbers.len() - i,
        {
            let n = numbers[i];
            answer.append("\nZa ");
            let digits = separate_with_spaces(n);
            answer.append(digits.as_str());
            answer.append(" si ");
            push_saying(&mut answer, n);
            proof {
                assert(numbers@.take(i + 1).drop_last() == numbers@.take(i as int));
            }
            i += 1;
        }
        proof {
            assert(numbers@.take(numbers.len() as int) == numbers@);
        }
    }
    answer
}

/// The message under which the answer to an inquiry goes into a thread:
/// the one the command was invoked on, unless it was invoked with the slash
/// prefix, which is answered directly (and with the inquiry quoted).
pub open spec fn reply_target_spec(prefix: Seq<char>, invoked_on: Option<u64>) -> Option<u64> {
    if prefix == "/"@ {
        None
    } else {
        invoked_on
    }
}

/// The message under which the answer goes into a thread, if any (see
/// [`reply_target_spec`]).
pub fn reply_target(prefix: &str, invoked_on: Option<u64>) -> (target: Option<u64>)
    ensures
        target == reply_target_spec(prefix@, invoked_on),
{
    proof {
        reveal_strlit("/");
    }
    let slash = prefix.unicode_len() == 1 && prefix.get_char(0) == '/';
    proof {
        if slash {
            assert(prefix@ =~= "/"@);
        }
    }
    if slash {
        None
    } else {
        invoked_on
    }
}

/// The name of the thread that holds the answer for `author`.
pub open spec fn thread_name_spec(author: Seq<char>) -> Seq<char> {
    "🦉 Hoo "@ + author + "!"@
}

/// The name of the thread that holds the answer for `author`.
pub fn thread_name(author: &str) -> (name: String)
    ensures
        name@ == thread_name_spec(author@),
{
    let mut name = String::from_str("🦉 Hoo ");
    name.append(author);
    name.append("!");
    name
}

/// `n` is a power of two.
pub open spec fn is_power_of_two(n: nat) -> bool
    decreases n,
{
    if n == 1 {
        true
    } else if n < 2 || n % 2 == 1 {
        false
    } else {
        is_power_of_two(n / 2)
    }
}

proof fn lemma_single_bit_even(n: u64)
    requires
        n > 1,
        n % 2 == 0,
    ensures
        single_bit(n) == single_bit(n / 2),
{
    assert(n > 1 && n % 2 == 0 ==> ((n & ((n - 1) as u64)) == 0 <==> ((n / 2) & ((n / 2 - 1) as u64)) == 0))
        by (bit_vector);
}

proof fn lemma_single_bit_odd(n: u64)
    requires
        n > 1,
        n % 2 == 1,
    ensures
        !single_bit(n),
{
    assert(n > 1 && n % 2 == 1 ==> (n & ((n - 1) as u64)) != 0) by (bit_vector);
}

/// Law: the binary saying goes to exactly the powers of two. Of a positive
/// number, the bit test that picks the saying (`n & (n - 1) == 0`) holds
/// exactly when the number is a power of two.
pub proof fn law_single_bit_is_power_of_two(n: u64)
    requires
        n > 0,
    ensures
        single_bit(n) <==> is_power_of_two(n as nat),
    decreases n,
{
    if n == 1 {
        assert((1u64 & 0u64) == 0) by (bit_vector);
    } else if n % 2 == 1 {
        lemma_single_bit_odd(n);
    } else {
        lemma_single_bit_even(n);
        law_single_bit_is_power_of_two(n / 2);
    }
}

/// `2^k`.
pub open spec fn two_to(k: nat) -> nat
    decreases k,
{
    if k == 0 {
        1
    } else {
        2 * two_to((k - 1) as nat)
    }
}

proof fn lemma_two_to_is_power_of_two(k: nat)
    ensures
        is_power_of_two(two_to(k)),
        two_to(k) >= 1,
    decreases k,
{
    if k > 0 {
        lemma_two_to_is_power_of_two((k - 1) as nat);
        assert(two_to(k) / 2 == two_to((k - 1) as nat));
    }
}

/// A number with a saying of its own.
pub open spec fn has_own_saying(n: u64) -> bool {
    n == 0 || n == 7 || n == 9 || n == 42 || n == 69 || n == 420
}

/// Law: the numbers with a saying of their own: 0 is infinite, 7 and 9 and
/// 42 and 69 and 420 each have theirs, before any other rule.
pub proof fn law_own_sayings(n: u64)
    ensures
        n == 0 ==> saying(n) == "∞ ptáčků užije."@,
        n == 7 ==> saying(n) == "devať nezkušiš."@,
        n == 9 ==> saying(n) == "kabel najdeš."@,
        n == 42 ==> saying(n) == "našel odpověď."@,
        n == 69 ==> saying(n) == "nice."@,
        n == 420 ==> saying(n) == "tě Michal najde."@,
{
}

/// Law: every power of two without a saying of its own is binary, whatever
/// its size: for `n == 2^k` the saying is "binárků užiješ.".
pub proof fn law_powers_of_two_are_binary(n: u64, k: nat)
    requires
        n == two_to(k),
        !has_own_saying(n),
    ensures
        saying(n) == "binárků užiješ."@,
{
    lemma_two_to_is_power_of_two(k);
}

/// Law: the owl buys one bird for every whole 50 and one owl for every whole
/// 15 000, with the word declined after the count. For a number with no
/// saying of its own that is no power of two, below 50 it buys nothing; from 50 to below 15 000 the
/// line counts `c` birds where `50 * c <= n < 50 * (c + 1)` ("ptáčka" for one,
/// "ptáčky" for two to four, "ptáčků" for more); from 15 000 on it counts `c`
/// owls where `15 000 * c <= n < 15 000 * (c + 1)` ("sovu", "sovy", "sov").
pub proof fn law_birds_and_owls_are_counted_down(n: u64, c: nat)
    requires
        !has_own_saying(n),
        !is_power_of_two(n as nat),
    ensures
        n < 50 ==> saying(n) == "ani ptáčka nekoupíš."@,
        50 <= n < 15_000 && 50 * c <= n < 50 * (c + 1) ==> saying(n) == "koupíš "@ + spaced(c)
            + " "@ + (if c == 1 {
            "ptáčka"@
        } else if c <= 4 {
            "ptáčky"@
        } else {
            "ptáčků"@
        }) + "."@,
        15_000 <= n && 15_000 * c <= n < 15_000 * (c + 1) ==> saying(n) == "koupíš "@ + spaced(c)
            + " "@ + (if c == 1 {
            "sovu"@
        } else if c <= 4 {
            "sovy"@
        } else {
            "sov"@
        }) + "."@,
{
    if 50 <= n < 15_000 && 50 * c <= n < 50 * (c + 1) {
        assert(n / 50 == c);
    }
    if 15_000 <= n && 15_000 * c <= n < 15_000 * (c + 1) {
        assert(n / 15_000 == c);
    }
}

/// Law: only the slash prefix answers directly. For every other prefix the
/// answer goes under the message the command was invoked on; with the slash
/// prefix it goes nowhere else.
pub proof fn law_only_slash_answers_directly(prefix: Seq<char>, invoked_on: Option<u64>)
    ensures
        prefix != seq!['/'] ==> reply_target_spec(prefix, invoked_on) == invoked_on,
        prefix == seq!['/'] ==> reply_target_spec(prefix, invoked_on) is None,
{
    reveal_strlit("/");
    assert("/"@ =~= seq!['/']);
}

/// Law: the answer has one line per number, in order, and nothing else
/// depends on the numbers. The lines of two runs of numbers are the lines of
/// the first followed by those of the second; each line is "\nZa ", the
/// number spaced in groups of three, " si " and its saying; and the answer
/// to a blank message is the greeting alone, whatever the numbers.
pub proof fn law_one_line_per_number(
    inquery: Option<Seq<char>>,
    include_message: bool,
    first: Seq<u64>,
    second: Seq<u64>,
    n: u64,
)
    ensures
        number_lines(first + second) == number_lines(first) + number_lines(second),
        number_lines(seq![n]) == "\nZa "@ + spaced(n as nat) + " si "@ + saying(n),
        is_blank(message_of(inquery)) ==> response(inquery, include_message, first) == response(
            inquery,
            include_message,
            second,
        ),
        !is_blank(message_of(inquery)) ==> response(inquery, include_message, first + second)
            == response(inquery, include_message, first) + number_lines(second),
    decreases second.len(),
{
    let single: Seq<u64> = seq![n];
    assert(single.drop_last() =~= Seq::<u64>::empty());
    assert(number_lines(Seq::<u64>::empty()) =~= Seq::<char>::empty());
    assert(number_lines(single) =~= number_line(n));
    if second.len() == 0 {
        assert(first + second =~= first);
        assert(number_lines(first) + Seq::<char>::empty() =~= number_lines(first));
    } else {
        law_one_line_per_number(inquery, include_message, first, second.drop_last(), n);
        assert((first + second).drop_last() =~= first + second.drop_last());
        assert((first + second).last() == second.last());
        assert(number_lines(first + second) =~= number_lines(first) + number_lines(second));
    }
}

} // verus!
