use vstd::prelude::*;

use super::clue::{Clue, ClueConnection};
use super::model::{spec_type_name, Sector, SectorType};

verus! {

/// A digit written out.
pub open spec fn digit_text(d: nat) -> Seq<char> {
    if d == 0 {
        "0"@
    } else if d == 1 {
        "1"@
    } else if d == 2 {
        "2"@
    } else if d == 3 {
        "3"@
    } else if d == 4 {
        "4"@
    } else if d == 5 {
        "5"@
    } else if d == 6 {
        "6"@
    } else if d == 7 {
        "7"@
    } else if d == 8 {
        "8"@
    } else {
        "9"@
    }
}

/// A number written out in digits, without leading zeros.
pub open spec fn decimal_text(n: nat) -> Seq<char>
    decreases n,
{
    if n < 10 {
        digit_text(n)
    } else {
        decimal_text(n / 10) + digit_text(n % 10)
    }
}

fn digit(d: usize) -> (r: &'static str)
    requires
        d < 10,
    ensures
        r@ == digit_text(d as nat),
{
    if d == 0 {
        "0"
    } else if d == 1 {
        "1"
    } else if d == 2 {
        "2"
    } else if d == 3 {
        "3"
    } else if d == 4 {
        "4"
    } else if d == 5 {
        "5"
    } else if d == 6 {
        "6"
    } else if d == 7 {
        "7"
    } else if d == 8 {
        "8"
    } else {
        "9"
    }
}

/// Writes a number out in digits.
pub fn decimal(n: usize) -> (r: String)
    ensures
        r@ == decimal_text(n as nat),
    decreases n,
{
    if n < 10 {
        String::from_str(digit(n))
    } else {
        let mut r = decimal(n / 10);
        r.append(digit(n % 10));
        r
    }
}

/// What stands before the subject when a clue is written out.
pub open spec fn clue_opening(clue: Clue) -> Seq<char> {
    if clue.subject == SectorType::X {
        ""@
    } else {
        match clue.conn {
            ClueConnection::AllAdjacent => "所有 "@,
            ClueConnection::OneAdjacent => "至少一个 "@,
            ClueConnection::NotAdjacent => "没有 "@,
            ClueConnection::OneOpposite => "至少一个 "@,
            ClueConnection::NotOpposite => "没有 "@,
            ClueConnection::AllInRange(_) => "所有 "@,
            ClueConnection::NotInRange(_) => "没有 "@,
        }
    }
}

/// What follows the subject when a clue is written out.
pub open spec fn clue_ending(clue: Clue) -> Seq<char> {
    let object = spec_type_name(clue.object);
    let about_x = clue.subject == SectorType::X;
    match clue.conn {
        ClueConnection::AllAdjacent => " 和 "@ + object + " 相邻"@,
        ClueConnection::OneAdjacent => " 和 "@ + object + " 相邻"@,
        ClueConnection::NotAdjacent => if about_x {
            " 不和 "@ + object + " 相邻"@
        } else {
            " 和 "@ + object + " 相邻"@
        },
        ClueConnection::OneOpposite => " 和 "@ + object + " 正对"@,
        ClueConnection::NotOpposite => if about_x {
            " 不和 "@ + object + " 正对"@
        } else {
            " 和 "@ + object + " 正对"@
        },
        ClueConnection::AllInRange(n) => if !about_x && clue.object == clue.subject {
            " 都在一个长度为 "@ + decimal_text(n as nat) + " 的区间内"@
        } else {
            " 在 "@ + object + " 的 "@ + decimal_text(n as nat) + " 格范围内"@
        },
        ClueConnection::NotInRange(n) => if about_x {
            " 不在 "@ + object + " 的 "@ + decimal_text(n as nat) + " 格内"@
        } else {
            " 在 "@ + object + " 的 "@ + decimal_text(n as nat) + " 格内"@
        },
    }
}

/// A clue written out for the players.
pub open spec fn clue_text(clue: Clue) -> Seq<char> {
    clue_opening(clue) + spec_type_name(clue.subject) + clue_ending(clue)
}

/// A sector written out.
pub open spec fn sector_text(sector: Sector) -> Seq<char> {
    "Sector "@ + decimal_text(sector.index as nat) + " - "@ + spec_type_name(sector.sector_type)
}

/// `first`, the name of the object, `second`.
fn around_object(first: &str, object: SectorType, second: &str) -> (r: String)
    ensures
        r@ == first@ + spec_type_name(object) + second@,
{
    let mut r = String::from_str(first);
    r.append(object.to_string().as_str());
    r.append(second);
    assert(r@ =~= first@ + spec_type_name(object) + second@);
    r
}

/// `first`, the name of the object, `second`, the number, `third`.
fn around_object_and_number(
    first: &str,
    object: SectorType,
    second: &str,
    n: usize,
    third: &str,
) -> (r: String)
    ensures
        r@ == first@ + spec_type_name(object) + second@ + decimal_text(n as nat) + third@,
{
    let mut r = around_object(first, object, second);
    r.append(decimal(n).as_str());
    r.append(third);
    assert(r@ =~= first@ + spec_type_name(object) + second@ + decimal_text(n as nat) + third@);
    r
}

impl Clue {
    /// The clue written out for the players.
    pub fn to_string(&self) -> (r: String)
        ensures
            r@ == clue_text(*self),
    {
        let about_x = self.subject == SectorType::X;
        let opening = if about_x {
            ""
        } else {
            match self.conn {
                ClueConnection::AllAdjacent => "所有 ",
                ClueConnection::OneAdjacent => "至少一个 ",
                ClueConnection::NotAdjacent => "没有 ",
                ClueConnection::OneOpposite => "至少一个 ",
                ClueConnection::NotOpposite => "没有 ",
                ClueConnection::AllInRange(_) => "所有 ",
                ClueConnection::NotInRange(_) => "没有 ",
            }
        };
        let ending = match self.conn {
            ClueConnection::AllAdjacent => around_object(" 和 ", self.object, " 相邻"),
            ClueConnection::OneAdjacent => around_object(" 和 ", self.object, " 相邻"),
            ClueConnection::NotAdjacent => if about_x {
                around_object(" 不和 ", self.object, " 相邻")
            } else {
                around_object(" 和 ", self.object, " 相邻")
            },
            ClueConnection::OneOpposite => around_object(" 和 ", self.object, " 正对"),
            ClueConnection::NotOpposite => if about_x {
                around_object(" 不和 ", self.object, " 正对")
            } else {
                around_object(" 和 ", self.object, " 正对")
            },
            ClueConnection::AllInRange(n) => if !about_x && self.object == self.subject {
                let mut e = String::from_str(" 都在一个长度为 ");
                e.append(decimal(n).as_str());
                e.append(" 的区间内");
                assert(e@ =~= " 都在一个长度为 "@ + decimal_text(n as nat) + " 的区间内"@);
                e
            } else {
                around_object_and_number(" 在 ", self.object, " 的 ", n, " 格范围内")
            },
            ClueConnection::NotInRange(n) => if about_x {
                around_object_and_number(" 不在 ", self.object, " 的 ", n, " 格内")
            } else {
                around_object_and_number(" 在 ", self.object, " 的 ", n, " 格内")
            },
        };
        let mut r = String::from_str(opening);
        r.append(self.subject.to_string().as_str());
        r.append(ending.as_str());
        assert(r@ =~= clue_text(*self));
        r
    }
}

impl Sector {
    /// The sector written out.
    pub fn to_string(&self) -> (r: String)
        ensures
            r@ == sector_text(*self),
    {
        let mut r = String::from_str("Sector ");
        r.append(decimal(self.index).as_str());
        r.append(" - ");
        r.append(self.sector_type.to_string().as_str());
        assert(r@ =~= sector_text(*self));
        r
    }
}

} // verus!
