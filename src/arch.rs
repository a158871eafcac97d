use vstd::prelude::*;
use crate::text::{chars_of, lowercase_of, to_lower};

verus! {

/// One 8-bit half of a whole register: `X` is the low half, `Y` the high half.
#[derive(Clone, Copy, Debug, PartialEq, Eq, Structural)]
pub enum Register8 {
    Ax, Ay,
    Bx, By,
    Cx, Cy,
    Dx, Dy,
    Ex, Ey,
    Fx, Fy,
    Gx, Gy,
    Hx, Hy,
}

/// A 16-bit whole register.
#[derive(Clone, Copy, Debug, PartialEq, Eq, Structural)]
pub enum Register16 {
    A,
    B,
    C,
    D,
    E,
    F,
    G,
    H,
}

/// A register operand: a half or a whole register.
#[derive(Clone, Copy, Debug, PartialEq, Eq, Structural)]
pub enum Register {
    Register8(Register8),
    Register16(Register16),
}

impl Register16 {
    /// The index of the register, 0 for `A` up to 7 for `H`.
    pub open spec fn spec_index(self) -> nat {
        match self {
            Register16::A => 0,
            Register16::B => 1,
            Register16::C => 2,
            Register16::D => 3,
            Register16::E => 4,
            Register16::F => 5,
            Register16::G => 6,
            Register16::H => 7,
        }
    }

    /// The letter that names the register in source text.
    pub open spec fn letter(self) -> char {
        match self {
            Register16::A => 'a',
            Register16::B => 'b',
            Register16::C => 'c',
            Register16::D => 'd',
            Register16::E => 'e',
            Register16::F => 'f',
            Register16::G => 'g',
            Register16::H => 'h',
        }
    }

    pub fn index(self) -> (r: u8)
        ensures
            r == self.spec_index(),
    {
        match self {
            Register16::A => 0,
            Register16::B => 1,
            Register16::C => 2,
            Register16::D => 3,
            Register16::E => 4,
            Register16::F => 5,
            Register16::G => 6,
            Register16::H => 7,
        }
    }

    /// The whole register named by a lowercase letter from `a` to `h`.
    pub fn from_letter(c: char) -> (r: Option<Register16>)
        ensures
            r matches Some(w) ==> w.letter() == c,
            r is None ==> forall|w: Register16| w.letter() != c,
    {
        match c {
            'a' => Some(Register16::A),
            'b' => Some(Register16::B),
            'c' => Some(Register16::C),
            'd' => Some(Register16::D),
            'e' => Some(Register16::E),
            'f' => Some(Register16::F),
            'g' => Some(Register16::G),
            'h' => Some(Register16::H),
            _ => None,
        }
    }
}

impl Register8 {
    /// The whole register this half belongs to.
    pub open spec fn spec_whole(self) -> Register16 {
        match self {
            Register8::Ax | Register8::Ay => Register16::A,
            Register8::Bx | Register8::By => Register16::B,
            Register8::Cx | Register8::Cy => Register16::C,
            Register8::Dx | Register8::Dy => Register16::D,
            Register8::Ex | Register8::Ey => Register16::E,
            Register8::Fx | Register8::Fy => Register16::F,
            Register8::Gx | Register8::Gy => Register16::G,
            Register8::Hx | Register8::Hy => Register16::H,
        }
    }

    /// Whether this is the `Y` half.
    pub open spec fn spec_is_y(self) -> bool {
        match self {
            Register8::Ay | Register8::By | Register8::Cy | Register8::Dy | Register8::Ey
            | Register8::Fy | Register8::Gy | Register8::Hy => true,
            _ => false,
        }
    }

    /// The numeric encoding: twice the whole register's index, plus one for `Y`.
    pub open spec fn spec_encoding(self) -> nat {
        2 * self.spec_whole().spec_index() + if self.spec_is_y() { 1nat } else { 0nat }
    }

    pub fn whole(self) -> (r: Register16)
        ensures
            r == self.spec_whole(),
    {
        match self {
            Register8::Ax | Register8::Ay => Register16::A,
            Register8::Bx | Register8::By => Register16::B,
            Register8::Cx | Register8::Cy => Register16::C,
            Register8::Dx | Register8::Dy => Register16::D,
            Register8::Ex | Register8::Ey => Register16::E,
            Register8::Fx | Register8::Fy => Register16::F,
            Register8::Gx | Register8::Gy => Register16::G,
            Register8::Hx | Register8::Hy => Register16::H,
        }
    }

    pub fn is_y(self) -> (r: bool)
        ensures
            r == self.spec_is_y(),
    {
        match self {
            Register8::Ay | Register8::By | Register8::Cy | Register8::Dy | Register8::Ey
            | Register8::Fy | Register8::Gy | Register8::Hy => true,
            _ => false,
        }
    }

    pub fn encoding(self) -> (r: u8)
        ensures
            r == self.spec_encoding(),
    {
        let w = self.whole().index();
        if self.is_y() {
            2 * w + 1
        } else {
            2 * w
        }
    }

    /// The half of `whole` selected by `y`.
    pub fn from_parts(whole: Register16, y: bool) -> (r: Register8)
        ensures
            r.spec_whole() == whole,
            r.spec_is_y() == y,
    {
        match (whole, y) {
            (Register16::A, false) => Register8::Ax,
            (Register16::A, true) => Register8::Ay,
            (Register16::B, false) => Register8::Bx,
            (Register16::B, true) => Register8::By,
            (Register16::C, false) => Register8::Cx,
            (Register16::C, true) => Register8::Cy,
            (Register16::D, false) => Register8::Dx,
            (Register16::D, true) => Register8::Dy,
            (Register16::E, false) => Register8::Ex,
            (Register16::E, true) => Register8::Ey,
            (Register16::F, false) => Register8::Fx,
            (Register16::F, true) => Register8::Fy,
            (Register16::G, false) => Register8::Gx,
            (Register16::G, true) => Register8::Gy,
            (Register16::H, false) => Register8::Hx,
            (Register16::H, true) => Register8::Hy,
        }
    }
}

/// The canonical (lowercase) spelling of a register: `r` and the whole
/// register's letter, then `x` or `y` for a half.
pub open spec fn spelling(r: Register) -> Seq<char> {
    match r {
        Register::Register16(w) => seq!['r', w.letter()],
        Register::Register8(h) => seq!['r', h.spec_whole().letter(), if h.spec_is_y() { 'y' } else { 'x' }],
    }
}

/// The register whose canonical spelling is exactly `name`, if any.
pub open spec fn catalogue(name: Seq<char>) -> Option<Register> {
    if exists|r: Register| spelling(r) == name {
        Some(choose|r: Register| spelling(r) == name)
    } else {
        None
    }
}

/// The whole register named by a letter, if any.
pub open spec fn whole_of_letter(c: char) -> Option<Register16> {
    if c == 'a' {
        Some(Register16::A)
    } else if c == 'b' {
        Some(Register16::B)
    } else if c == 'c' {
        Some(Register16::C)
    } else if c == 'd' {
        Some(Register16::D)
    } else if c == 'e' {
        Some(Register16::E)
    } else if c == 'f' {
        Some(Register16::F)
    } else if c == 'g' {
        Some(Register16::G)
    } else if c == 'h' {
        Some(Register16::H)
    } else {
        None
    }
}

proof fn lemma_letter_names_whole(w: Register16)
    ensures
        whole_of_letter(w.letter()) == Some(w),
{
    match w {
        _ => {},
    }
}

proof fn lemma_half_of_parts(h1: Register8, h2: Register8)
    requires
        h1.spec_whole() == h2.spec_whole(),
        h1.spec_is_y() == h2.spec_is_y(),
    ensures
        h1 == h2,
{
    match h1 {
        _ => {},
    }
}

/// No two registers share a spelling.
pub proof fn lemma_spelling_injective(r1: Register, r2: Register)
    requires
        spelling(r1) == spelling(r2),
    ensures
        r1 == r2,
{
    assert(spelling(r1).len() == spelling(r2).len());
    assert(spelling(r1)[1] == spelling(r2)[1]);
    match (r1, r2) {
        (Register::Register8(h1), Register::Register8(h2)) => {
            assert(spelling(r1)[2] == spelling(r2)[2]);
            lemma_letter_names_whole(h1.spec_whole());
            lemma_letter_names_whole(h2.spec_whole());
            assert(h1.spec_whole() == h2.spec_whole());
            assert(h1.spec_is_y() == h2.spec_is_y());
            lemma_half_of_parts(h1, h2);
        },
        (Register::Register16(w1), Register::Register16(w2)) => {
            lemma_letter_names_whole(w1);
            lemma_letter_names_whole(w2);
            assert(w1 == w2);
        },
        (Register::Register8(h1), Register::Register16(w2)) => {
            assert(spelling(r1).len() == 3);
        },
        (Register::Register16(w1), Register::Register8(h2)) => {
            assert(spelling(r1).len() == 2);
        },
    }
}

/// The catalogue is exactly the table of spellings.
pub proof fn lemma_catalogue_spelling(name: Seq<char>, r: Register)
    ensures
        catalogue(name) == Some(r) <==> spelling(r) == name,
{
    if spelling(r) == name {
        let c = choose|x: Register| spelling(x) == name;
        lemma_spelling_injective(c, r);
    }
}

/// The register spelled exactly `name`, which must already be lowercase.
pub fn lookup(name: &str) -> (r: Option<Register>)
    ensures
        r == catalogue(name@),
{
    let cs = chars_of(name);
    if cs.len() < 2 || cs.len() > 3 || cs[0] != 'r' {
        assert forall|x: Register| spelling(x) != name@ by {
            assert(spelling(x).len() == 2 || spelling(x).len() == 3);
            assert(spelling(x)[0] == 'r');
        }
        return None;
    }
    let whole = match Register16::from_letter(cs[1]) {
        Some(w) => w,
        None => {
            assert forall|x: Register| spelling(x) != name@ by {
                match x {
                    Register::Register16(w) => assert(spelling(x)[1] == w.letter()),
                    Register::Register8(h) => assert(spelling(x)[1] == h.spec_whole().letter()),
                }
            }
            return None;
        },
    };
    let r = if cs.len() == 2 {
        Some(Register::Register16(whole))
    } else if cs[2] == 'x' {
        Some(Register::Register8(Register8::from_parts(whole, false)))
    } else if cs[2] == 'y' {
        Some(Register::Register8(Register8::from_parts(whole, true)))
    } else {
        None
    };
    proof {
        match r {
            Some(x) => {
                assert(spelling(x) =~= name@);
                lemma_catalogue_spelling(name@, x);
            },
            None => {
                assert forall|x: Register| spelling(x) != name@ by {
                    if spelling(x) == name@ {
                        assert(spelling(x)[2] == cs@[2]);
                    }
                }
            },
        }
    }
    r
}

/// Resolves a register name, ignoring case.
pub fn resolve(name: &str) -> (r: Option<Register>)
    ensures
        r == catalogue(lowercase_of(name@)),
{
    let lower = to_lower(name);
    lookup(lower.as_str())
}

} // verus!
