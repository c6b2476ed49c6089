//! File names: `a` to `z`, then `aa`, `ab` and so on.

use vstd::prelude::*;
use vstd::string::StringExecFns;

verus! {

/// The letters that file names are made of.
pub const LETTERS: [char; 26] = [
    'a', 'b', 'c', 'd', 'e', 'f', 'g', 'h', 'i', 'j', 'k', 'l', 'm', 'n', 'o', 'p', 'q', 'r', 's',
    't', 'u', 'v', 'w', 'x', 'y', 'z',
];

/// The letter with the given index.
pub open spec fn letter(i: nat) -> char {
    ('a' as nat + i) as char
}

/// The name with the given number: all names of one letter come first, then all of two letters,
/// and so on, each length in alphabetical order.
pub open spec fn name_of(n: nat) -> Seq<char>
    decreases n,
{
    if n < 26 {
        seq![letter(n)]
    } else {
        name_of((n / 26 - 1) as nat).push(letter(n % 26))
    }
}

/// The number of a name.
pub open spec fn number_of(name: Seq<char>) -> int
    decreases name.len(),
{
    if name.len() == 0 {
        -1
    } else {
        26 * (number_of(name.drop_last()) + 1) + (name.last() as int - 'a' as int)
    }
}

/// Whether a text is made of one or more of the letters.
pub open spec fn is_name(name: Seq<char>) -> bool {
    name.len() > 0 && forall|i: int| 0 <= i < name.len() ==> 'a' <= #[trigger] name[i] <= 'z'
}

/// The name with the number `dec`.
pub fn base26(dec: usize) -> (out: String)
    ensures
        out@ == name_of(dec as nat),
{
    let ghost whole = name_of(dec as nat);
    let mut dec: usize = dec;
    let mut out = String::new();

    loop
        invariant_except_break
            whole == name_of(dec as nat) + out@,
        ensures
            whole == out@,
        decreases dec,
    {
        let rem: usize = dec % 26;
        let ghost number = dec as nat;
        dec /= 26;

        let mut longer = String::new();
        longer.push(LETTERS[rem]);
        longer.append(out.as_str());
        assert(LETTERS@[rem as int] == letter(rem as nat));
        assert(longer@ == seq![letter(rem as nat)] + out@);
        out = longer;

        if dec == 0 {
            break;
        } else {
            dec -= 1;
            assert(name_of(number) == name_of(dec as nat).push(letter(rem as nat)));
            assert(whole == name_of(dec as nat) + out@);
        }
    }

    out
}

/// Every number has a name, and the name tells the number.
pub proof fn law_number_of_name(n: nat)
    ensures
        is_name(name_of(n)),
        name_of(n).len() > 0,
        forall|i: int| 0 <= i < name_of(n).len() ==> 'a' <= #[trigger] name_of(n)[i] <= 'z',
        number_of(name_of(n)) == n,
    decreases n,
{
    let name = name_of(n);
    if n < 26 {
        assert(name.drop_last() == Seq::<char>::empty());
        assert(number_of(name.drop_last()) == -1);
    } else {
        law_number_of_name((n / 26 - 1) as nat);
        let shorter = name_of((n / 26 - 1) as nat);
        assert(name.drop_last() == shorter);
        assert forall|i: int| 0 <= i < name.len() implies 'a' <= #[trigger] name[i] <= 'z' by {
            if i < name.len() - 1 {
                assert(name[i] == shorter[i]);
            }
        }
    }
}

/// Different numbers have different names.
pub proof fn law_names_differ(m: nat, n: nat)
    requires
        m != n,
    ensures
        name_of(m) != name_of(n),
{
    law_number_of_name(m);
    law_number_of_name(n);
}

/// Every text made of the letters is the name of a number.
pub proof fn law_name_of_number(name: Seq<char>)
    requires
        name.len() > 0,
        forall|i: int| 0 <= i < name.len() ==> 'a' <= #[trigger] name[i] <= 'z',
    ensures
        number_of(name) >= 0,
        name_of(number_of(name) as nat) == name,
    decreases name.len(),
{
    let shorter = name.drop_last();
    let last = name.last();
    assert('a' <= name[name.len() - 1] <= 'z');
    let digit = (last as int - 'a' as int) as nat;
    assert(letter(digit) == last);
    if shorter.len() == 0 {
        assert(number_of(shorter) == -1);
        assert(name == seq![last]);
    } else {
        assert forall|i: int| 0 <= i < shorter.len() implies 'a' <= #[trigger] shorter[i] <= 'z' by {
            assert(shorter[i] == name[i]);
        }
        law_name_of_number(shorter);
        assert(shorter.push(last) == name);
    }
}

/// Whether two names are the same up to their letter `i`, where `first` has an earlier one.
pub open spec fn smaller_at(first: Seq<char>, second: Seq<char>, i: int) -> bool {
    &&& 0 <= i < first.len()
    &&& i < second.len()
    &&& first.take(i) == second.take(i)
    &&& first[i] < second[i]
}

/// Whether one name comes before another: it is shorter, or of the same length and has an earlier
/// letter where the two first differ.
pub open spec fn precedes(first: Seq<char>, second: Seq<char>) -> bool {
    ||| first.len() < second.len()
    ||| first.len() == second.len() && exists|i: int| smaller_at(first, second, i)
}

/// The names of rising numbers are in order: by length, and alphabetically within one length.
pub proof fn law_names_grow(m: nat, n: nat)
    requires
        m < n,
    ensures
        precedes(name_of(m), name_of(n)),
        name_of(m).len() < name_of(n).len() || name_of(m).len() == name_of(n).len() && exists|i: int|
            0 <= i < name_of(m).len() && name_of(m).take(i) == name_of(n).take(i) && (
            #[trigger] name_of(m)[i]) < name_of(n)[i],
    decreases n,
{
    let first = name_of(m);
    let second = name_of(n);
    if n < 26 {
        assert(first.take(0) == second.take(0));
        assert(smaller_at(first, second, 0));
        assert(first[0] < second[0]);
    } else if m < 26 {
        law_number_of_name((n / 26 - 1) as nat);
    } else {
        let less = (m / 26 - 1) as nat;
        let more = (n / 26 - 1) as nat;
        if less == more {
            let last = first.len() - 1;
            assert(first.take(last) == name_of(less));
            assert(second.take(last) == name_of(more));
            assert(smaller_at(first, second, last));
            assert(first[last] < second[last]);
        } else {
            law_names_grow(less, more);
            if first.len() == second.len() {
                let i = choose|i: int| smaller_at(name_of(less), name_of(more), i);
                assert(first.take(i) == name_of(less).take(i));
                assert(second.take(i) == name_of(more).take(i));
                assert(smaller_at(first, second, i));
                assert(first[i] < second[i]);
            }
        }
    }
}

} // verus!
