//! Register identities of the low-level intermediate language.

use vstd::prelude::*;
use vstd::string::StringExecFns;

verus! {

/// The bit that separates the identifiers of temporaries from those of
/// architecture registers.
pub const TEMP_REGISTER_FLAG: u32 = 0x8000_0000;

/// The character that writes the digit `d`.
pub open spec fn digit_char(d: nat) -> char {
    if d == 0 {
        '0'
    } else if d == 1 {
        '1'
    } else if d == 2 {
        '2'
    } else if d == 3 {
        '3'
    } else if d == 4 {
        '4'
    } else if d == 5 {
        '5'
    } else if d == 6 {
        '6'
    } else if d == 7 {
        '7'
    } else if d == 8 {
        '8'
    } else {
        '9'
    }
}

/// The number `n` written in decimal, without leading zeros.
pub open spec fn decimal_text(n: nat) -> Seq<char>
    decreases n,
{
    if n < 10 {
        seq![digit_char(n)]
    } else {
        decimal_text(n / 10).push(digit_char(n % 10))
    }
}

/// What every name of a temporary starts with.
pub open spec fn temp_prefix() -> Seq<char> {
    seq!['t', 'e', 'm', 'p']
}

fn digit_text(d: u32) -> (r: &'static str)
    requires
        d < 10,
    ensures
        r@ == seq![digit_char(d as nat)],
{
    proof {
        reveal_strlit("0");
        reveal_strlit("1");
        reveal_strlit("2");
        reveal_strlit("3");
        reveal_strlit("4");
        reveal_strlit("5");
        reveal_strlit("6");
        reveal_strlit("7");
        reveal_strlit("8");
        reveal_strlit("9");
    }
    let r = if d == 0 {
        "0"
    } else if d == 1 {
        "1"
    } else if d == 2 {
        "2"
    } else if d == 3 {
        "3"
    } else if d == 4 {
        "4"
    } else if d == 5 {
        "5"
    } else if d == 6 {
        "6"
    } else if d == 7 {
        "7"
    } else if d == 8 {
        "8"
    } else {
        "9"
    };
    assert(r@ =~= seq![digit_char(d as nat)]);
    r
}

/// Appends `n` in decimal to `out`.
fn push_decimal(out: &mut String, n: u32)
    ensures
        final(out)@ == old(out)@ + decimal_text(n as nat),
    decreases n,
{
    if n >= 10 {
        push_decimal(out, n / 10);
    }
    let ghost before = out@;
    out.append(digit_text(n % 10));
    proof {
        if n >= 10 {
            assert(before + seq![digit_char((n % 10) as nat)] =~= old(out)@ + decimal_text(
                n as nat,
            ));
        }
    }
}

/// A register of some architecture, as the lifter sees it.
pub trait ArchReg: Copy {
    /// The identifier the architecture gives this register.
    spec fn spec_id(&self) -> u32;

    /// The name the architecture gives this register.
    spec fn spec_name(&self) -> Seq<char>;

    fn id(&self) -> (r: u32)
        ensures
            r == self.spec_id(),
    ;

    fn name(&self) -> (r: String)
        ensures
            r@ == self.spec_name(),
    ;
}

/// An architecture register that is nothing but its identifier.
#[derive(Clone, Copy, Debug, PartialEq, Eq, Structural)]
pub struct CoreRegister {
    pub id: u32,
}

impl ArchReg for CoreRegister {
    open spec fn spec_id(&self) -> u32 {
        self.id
    }

    /// The letter `r` and the identifier in decimal.
    open spec fn spec_name(&self) -> Seq<char> {
        seq!['r'] + decimal_text(self.id as nat)
    }

    fn id(&self) -> (r: u32) {
        self.id
    }

    fn name(&self) -> (r: String) {
        proof {
            reveal_strlit("r");
        }
        let mut out = "r".to_owned();
        assert(out@ =~= seq!['r']);
        push_decimal(&mut out, self.id);
        out
    }
}

/// A register operand: one of the architecture's own, or a numbered
/// temporary.
#[derive(Clone, Copy, Debug)]
pub enum Register<R: ArchReg> {
    ArchReg(R),
    Temp(u32),
}

impl<R: ArchReg> Register<R> {
    /// The identifier of this register in the shared identifier space.
    pub open spec fn spec_id(&self) -> u32 {
        match *self {
            Register::ArchReg(r) => r.spec_id(),
            Register::Temp(id) => TEMP_REGISTER_FLAG | id,
        }
    }

    /// The name under which the register is shown.
    pub open spec fn spec_name(&self) -> Seq<char> {
        match *self {
            Register::ArchReg(r) => r.spec_name(),
            Register::Temp(id) => temp_prefix() + decimal_text(id as nat),
        }
    }

    /// The name under which the register is shown: the architecture's name
    /// for one of its registers, and `temp` with its number for a
    /// temporary.
    pub fn name(&self) -> (r: String)
        ensures
            r@ == self.spec_name(),
    {
        match *self {
            Register::ArchReg(ref r) => r.name(),
            Register::Temp(id) => {
                proof {
                    reveal_strlit("temp");
                }
                let mut out = "temp".to_owned();
                assert(out@ =~= temp_prefix());
                push_decimal(&mut out, id);
                out
            },
        }
    }

    /// Architecture registers keep their identifier; a temporary gets its
    /// number with the temporary flag set.
    pub fn id(&self) -> (r: u32)
        ensures
            r == self.spec_id(),
            self is Temp ==> r >= TEMP_REGISTER_FLAG,
    {
        match *self {
            Register::ArchReg(ref r) => r.id(),
            Register::Temp(id) => {
                assert(0x8000_0000u32 | id >= 0x8000_0000u32) by (bit_vector);
                TEMP_REGISTER_FLAG | id
            },
        }
    }
}

/// A register in static single assignment form.
#[derive(Clone, Copy, Debug)]
pub enum SSARegister<R: ArchReg> {
    /// A whole register and its version.
    Full(Register<R>, u32),
    /// A part of an architecture register: the full register, its version,
    /// and the part that is accessed.
    Partial(R, u32, R),
}

impl<R: ArchReg> SSARegister<R> {
    pub open spec fn spec_version(&self) -> u32 {
        match *self {
            SSARegister::Full(_, ver) => ver,
            SSARegister::Partial(_, ver, _) => ver,
        }
    }

    /// The version number that distinguishes this definition of the register.
    pub fn version(&self) -> (r: u32)
        ensures
            r == self.spec_version(),
    {
        match *self {
            SSARegister::Full(_, ver) | SSARegister::Partial(_, ver, _) => ver,
        }
    }
}

/// What a visitor asks of the traversal after each node.
#[derive(Clone, Copy, Debug, PartialEq, Eq, Structural)]
pub enum VisitorAction {
    Descend,
    Sibling,
    Halt,
}

} // verus!
