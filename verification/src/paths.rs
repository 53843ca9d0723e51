//! Readable names for layout variables, for diagnostics.

use vstd::prelude::*;
use vstd::string::StringExecFns;
use crate::components::Name;
use crate::entity::Entity;
use crate::storage::Storage;
use crate::variable::{VariableX, VariableY};

verus! {

/// The character of a decimal digit.
pub open spec fn digit(d: nat) -> char {
    if d == 0 {
        '0'
    } else if d == 1 {
        '1'
    } else if d == 2 {
        '2'
    } else if d == 3 {
        '3'
    } else if d == 4 {
        '4'
    } else if d == 5 {
        '5'
    } else if d == 6 {
        '6'
    } else if d == 7 {
        '7'
    } else if d == 8 {
        '8'
    } else {
        '9'
    }
}

/// The number in decimal, without leading zeros.
pub open spec fn decimal(n: nat) -> Seq<char>
    decreases n,
{
    if n < 10 {
        seq![digit(n)]
    } else {
        decimal(n / 10).push(digit(n % 10))
    }
}

/// How an entity is called: by its name if it has one, else by its index;
/// the stage is called `stage`.
pub open spec fn called(owner: Option<Entity>, names: Map<u32, Name>) -> Seq<char> {
    match owner {
        Some(e) => if names.contains_key(e.id()) {
            names[e.id()]@
        } else {
            "entity("@ + decimal(e.id() as nat) + ")"@
        },
        None => "stage"@,
    }
}

/// The one-character string of a decimal digit.
fn digit_str(d: u32) -> (s: &'static str)
    requires
        d < 10,
    ensures
        s@ == seq![digit(d as nat)],
{
    proof {
        reveal_strlit("0");
        reveal_strlit("1");
        reveal_strlit("2");
        reveal_strlit("3");
        reveal_strlit("4");
        reveal_strlit("5");
        reveal_strlit("6");
        reveal_strlit("7");
        reveal_strlit("8");
        reveal_strlit("9");
    }
    let s = if d == 0 {
        "0"
    } else if d == 1 {
        "1"
    } else if d == 2 {
        "2"
    } else if d == 3 {
        "3"
    } else if d == 4 {
        "4"
    } else if d == 5 {
        "5"
    } else if d == 6 {
        "6"
    } else if d == 7 {
        "7"
    } else if d == 8 {
        "8"
    } else {
        "9"
    };
    assert(s@ =~= seq![digit(d as nat)]);
    s
}

/// Appends the number in decimal.
fn append_decimal(out: &mut String, n: u32)
    ensures
        final(out)@ == old(out)@ + decimal(n as nat),
    decreases n,
{
    if n >= 10 {
        append_decimal(out, n / 10);
    }
    out.append(digit_str(n % 10));
    proof {
        if n >= 10 {
            assert(out@ =~= old(out)@ + decimal((n / 10) as nat).push(digit((n % 10) as nat)));
        } else {
            assert(out@ =~= old(out)@ + seq![digit(n as nat)]);
        }
    }
}

/// How the owner of a variable is called.
pub fn call(owner: &Option<Entity>, names: &Storage<Name>) -> (s: String)
    ensures
        s@ == called(*owner, names@),
{
    match owner {
        Some(e) => {
            match names.get(e.id()) {
                Some(name) => name.0.clone(),
                None => {
                    let mut s = String::from_str("entity(");
                    append_decimal(&mut s, e.id());
                    s.append(")");
                    s
                },
            }
        },
        None => String::from_str("stage"),
    }
}

impl VariableX {
    /// The part of the rectangle the variable stands for.
    pub open spec fn part(&self) -> Seq<char> {
        match self {
            VariableX::Left(_) => "left"@,
            VariableX::Width(_) => "width"@,
        }
    }

    /// The owner of the variable.
    pub open spec fn anchor(&self) -> Option<Entity> {
        match self {
            VariableX::Left(e) => *e,
            VariableX::Width(e) => *e,
        }
    }

    /// The variable as a path: who it belongs to, a dot, and what it is.
    pub fn to_pathy_string(&self, names: &Storage<Name>) -> (s: String)
        ensures
            s@ == called(self.anchor(), names@) + "."@ + self.part(),
    {
        let (dir, may_ent) = match self {
            VariableX::Left(may_ent) => ("left", may_ent),
            VariableX::Width(may_ent) => ("width", may_ent),
        };
        let mut s = call(may_ent, names);
        s.append(".");
        s.append(dir);
        s
    }
}

impl VariableY {
    /// The part of the rectangle the variable stands for.
    pub open spec fn part(&self) -> Seq<char> {
        match self {
            VariableY::Top(_) => "top"@,
            VariableY::Height(_) => "height"@,
        }
    }

    /// The owner of the variable.
    pub open spec fn anchor(&self) -> Option<Entity> {
        match self {
            VariableY::Top(e) => *e,
            VariableY::Height(e) => *e,
        }
    }

    /// The variable as a path: who it belongs to, a dot, and what it is.
    pub fn to_pathy_string(&self, names: &Storage<Name>) -> (s: String)
        ensures
            s@ == called(self.anchor(), names@) + "."@ + self.part(),
    {
        let (dir, may_ent) = match self {
            VariableY::Top(may_ent) => ("top", may_ent),
            VariableY::Height(may_ent) => ("height", may_ent),
        };
        let mut s = call(may_ent, names);
        s.append(".");
        s.append(dir);
        s
    }
}

} // verus!
