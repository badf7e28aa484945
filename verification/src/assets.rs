use vstd::prelude::*;

verus! {

use vstd::string::StringExecFns;

/// The character for one decimal digit.
pub open spec fn digit_char(d: int) -> char {
    if d == 0 {
        '0'
    } else if d == 1 {
        '1'
    } else if d == 2 {
        '2'
    } else if d == 3 {
        '3'
    } else if d == 4 {
        '4'
    } else if d == 5 {
        '5'
    } else if d == 6 {
        '6'
    } else if d == 7 {
        '7'
    } else if d == 8 {
        '8'
    } else {
        '9'
    }
}

/// The sprite file name that shows a card: `card`, the id zero-padded
/// to two decimal digits, and `.bmp`.
pub open spec fn card_image_name(id: int) -> Seq<char> {
    "card"@ + seq![digit_char(id / 10), digit_char(id % 10)] + ".bmp"@
}

/// A one-character string slice for a decimal digit.
fn digit_str(d: i32) -> (s: &'static str)
    requires
        0 <= d <= 9,
    ensures
        s@ == seq![digit_char(d as int)],
{
    proof {
        reveal_strlit("0");
        reveal_strlit("1");
        reveal_strlit("2");
        reveal_strlit("3");
        reveal_strlit("4");
        reveal_strlit("5");
        reveal_strlit("6");
        reveal_strlit("7");
        reveal_strlit("8");
        reveal_strlit("9");
    }
    let s: &'static str = if d == 0 {
        "0"
    } else if d == 1 {
        "1"
    } else if d == 2 {
        "2"
    } else if d == 3 {
        "3"
    } else if d == 4 {
        "4"
    } else if d == 5 {
        "5"
    } else if d == 6 {
        "6"
    } else if d == 7 {
        "7"
    } else if d == 8 {
        "8"
    } else {
        "9"
    };
    proof {
        assert(s@ =~= seq![digit_char(d as int)]);
    }
    s
}

/// The file name of the bitmap a card with this id is drawn with.
pub fn get_card_image(id: i32) -> (name: String)
    requires
        0 <= id <= 99,
    ensures
        name@ == card_image_name(id as int),
{
    let mut name = String::from_str("card");
    name.append(digit_str(id / 10));
    name.append(digit_str(id % 10));
    name.append(".bmp");
    proof {
        assert(name@ =~= card_image_name(id as int));
    }
    name
}

} // verus!
