//! Identities of initialization tasks.
//!
//! A [`Symbol`] names one declared value: its identifier together with the
//! place where it was declared. Two symbols are the same name exactly when all
//! five of their parts agree.

use vstd::prelude::*;
use vstd::utf8::encode_utf8;
use vstd::utf8::encode_utf8_decode_utf8;
use vstd::string::StringSliceAdditionalSpecFns;
use vstd::string::StringExecFns;
use vstd::std_specs::cmp::PartialEqSpecImpl;

verus! {

/// The mathematical value of a [`Symbol`]: its text parts as character
/// sequences, its numbers as they are.
pub struct SymbolView {
    pub file: Seq<char>,
    pub line: u32,
    pub column: u32,
    pub module: Seq<char>,
    pub ident: Seq<char>,
}

/// Identity of a declared value, with the source place used in diagnostics.
#[derive(Debug, Eq, Hash)]
pub struct Symbol {
    /// Path of the file that holds the declaration.
    pub file: &'static str,
    /// Line of the declaration.
    pub line: u32,
    /// Column of the declaration.
    pub column: u32,
    /// Module path that holds the declaration.
    pub module: &'static str,
    /// Identifier of the declared value.
    pub ident: &'static str,
}

impl View for Symbol {
    type V = SymbolView;

    open spec fn view(&self) -> SymbolView {
        SymbolView {
            file: self.file@,
            line: self.line,
            column: self.column,
            module: self.module@,
            ident: self.ident@,
        }
    }
}

impl PartialEq for Symbol {
    fn eq(&self, other: &Symbol) -> (r: bool) {
        self.same(other)
    }
}

impl PartialEqSpecImpl for Symbol {
    open spec fn obeys_eq_spec() -> bool {
        true
    }

    open spec fn eq_spec(&self, other: &Symbol) -> bool {
        self@ == other@
    }
}

/// Two texts with the same UTF-8 bytes are the same text.
pub proof fn lemma_same_bytes_same_text(a: Seq<char>, b: Seq<char>)
    requires
        encode_utf8(a) == encode_utf8(b),
    ensures
        a == b,
{
    encode_utf8_decode_utf8(a);
    encode_utf8_decode_utf8(b);
}

/// Whether two texts hold the same characters.
pub fn same_text(a: &str, b: &str) -> (r: bool)
    ensures
        r == (a@ == b@),
{
    let x = a.as_bytes();
    let y = b.as_bytes();
    if x.len() != y.len() {
        return false;
    }
    let mut i: usize = 0;
    while i < x.len()
        invariant
            i <= x.len(),
            x.len() == y.len(),
            x@ == a.spec_bytes(),
            y@ == b.spec_bytes(),
            forall|k: int| 0 <= k < i ==> x@[k] == y@[k],
        decreases x.len() - i,
    {
        if x[i] != y[i] {
            return false;
        }
        i += 1;
    }
    proof {
        assert(x@ =~= y@);
        lemma_same_bytes_same_text(a@, b@);
    }
    true
}

/// The character that writes the digit `d`.
pub open spec fn digit_char(d: int) -> char {
    if d == 0 {
        '0'
    } else if d == 1 {
        '1'
    } else if d == 2 {
        '2'
    } else if d == 3 {
        '3'
    } else if d == 4 {
        '4'
    } else if d == 5 {
        '5'
    } else if d == 6 {
        '6'
    } else if d == 7 {
        '7'
    } else if d == 8 {
        '8'
    } else {
        '9'
    }
}

/// The decimal numeral of `n`, without leading zeros.
pub open spec fn decimal(n: nat) -> Seq<char>
    decreases n,
{
    if n < 10 {
        seq![digit_char(n as int)]
    } else {
        decimal(n / 10).push(digit_char((n % 10) as int))
    }
}

/// The one-character text of the digit `d`.
fn digit_text(d: u32) -> (t: &'static str)
    requires
        d < 10,
    ensures
        t@ == seq![digit_char(d as int)],
{
    proof {
        reveal_strlit("0");
        reveal_strlit("1");
        reveal_strlit("2");
        reveal_strlit("3");
        reveal_strlit("4");
        reveal_strlit("5");
        reveal_strlit("6");
        reveal_strlit("7");
        reveal_strlit("8");
        reveal_strlit("9");
    }
    let t = if d == 0 {
        "0"
    } else if d == 1 {
        "1"
    } else if d == 2 {
        "2"
    } else if d == 3 {
        "3"
    } else if d == 4 {
        "4"
    } else if d == 5 {
        "5"
    } else if d == 6 {
        "6"
    } else if d == 7 {
        "7"
    } else if d == 8 {
        "8"
    } else {
        "9"
    };
    assert(t@ =~= seq![digit_char(d as int)]);
    t
}

/// Appends the decimal numeral of `n` to `out`.
pub fn push_decimal(out: &mut String, n: u32)
    ensures
        final(out)@ == old(out)@ + decimal(n as nat),
    decreases n,
{
    if n >= 10 {
        push_decimal(out, n / 10);
    }
    out.append(digit_text(n % 10));
    assert(final(out)@ =~= old(out)@ + decimal(n as nat));
}

/// The diagnostic text of a symbol: the identifier, then the place of the
/// declaration as ` (at file:line:column)`.
pub open spec fn symbol_text(s: SymbolView) -> Seq<char> {
    s.ident + " (at "@ + s.file + ":"@ + decimal(s.line as nat) + ":"@ + decimal(
        s.column as nat,
    ) + ")"@
}

impl Symbol {
    /// Whether `self` and `other` are the same name: all five parts agree.
    pub fn same(&self, other: &Symbol) -> (r: bool)
        ensures
            r == (self@ == other@),
    {
        self.line == other.line && self.column == other.column && same_text(
            self.ident,
            other.ident,
        ) && same_text(self.file, other.file) && same_text(self.module, other.module)
    }

    /// Appends the diagnostic text of `self` to `out`.
    pub fn write_to(&self, out: &mut String)
        ensures
            final(out)@ == old(out)@ + symbol_text(self@),
    {
        out.append(self.ident);
        out.append(" (at ");
        out.append(self.file);
        out.append(":");
        push_decimal(out, self.line);
        out.append(":");
        push_decimal(out, self.column);
        out.append(")");
        assert(final(out)@ =~= old(out)@ + symbol_text(self@));
    }

    /// The diagnostic text of `self`, as `IDENT (at file:line:column)`.
    pub fn to_string(&self) -> (text: String)
        ensures
            text@ == symbol_text(self@),
    {
        let mut text = String::new();
        self.write_to(&mut text);
        assert(text@ =~= symbol_text(self@));
        text
    }
}

} // verus!
