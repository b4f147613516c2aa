//! Why a run failed.

use vstd::prelude::*;
use vstd::string::StringExecFns;
use vstd::string::to_string_from_display_ensures;
use vstd::std_specs::convert::FromSpecImpl;
use crate::symbol::Symbol;
use crate::symbol::symbol_text;

verus! {

/// `anyhow::Error`, the error that a task's action returns. Nothing is known
/// of what such a value holds; it is carried through unchanged.
#[verifier::external_type_specification]
#[verifier::external_body]
pub struct ExError(anyhow::Error);

/// The ways in which a run can fail.
#[derive(Debug)]
pub enum InitError {
    /// Two or more tasks provide the name `symbol`.
    Ambiguous { symbol: &'static Symbol },
    /// The task `dependent` refers to the name `symbol`, which two or more
    /// tasks provide.
    AmbiguousDependency { dependent: &'static Symbol, symbol: &'static Symbol },
    /// The tasks `symbols` wait for each other: none of them can ever start.
    Circular { symbols: Vec<&'static Symbol> },
    /// A task's action failed with this error.
    Execution(anyhow::Error),
}

impl From<anyhow::Error> for InitError {
    fn from(e: anyhow::Error) -> (r: InitError) {
        InitError::Execution(e)
    }
}

impl FromSpecImpl<anyhow::Error> for InitError {
    open spec fn obeys_from_spec() -> bool {
        true
    }

    open spec fn from_spec(e: anyhow::Error) -> InitError {
        InitError::Execution(e)
    }
}

/// The message for a name with several providers.
pub open spec fn ambiguous_text(symbol: &'static Symbol) -> Seq<char> {
    "Symbol "@ + symbol_text(symbol@) + " is defined multiple times."@
}

/// The message for a reference to a name with several providers.
pub open spec fn ambiguous_dependency_text(
    dependent: &'static Symbol,
    symbol: &'static Symbol,
) -> Seq<char> {
    "Dependency "@ + symbol_text(symbol@) + " of "@ + symbol_text(dependent@)
        + " is defined multiple times."@
}

/// One line per symbol: four spaces, the symbol's text, a line feed.
pub open spec fn symbol_lines(symbols: Seq<&'static Symbol>) -> Seq<char>
    decreases symbols.len(),
{
    if symbols.len() == 0 {
        Seq::empty()
    } else {
        symbol_lines(symbols.drop_last()) + "    "@ + symbol_text(symbols.last()@) + "\n"@
    }
}

/// The message for tasks that wait for each other.
pub open spec fn circular_text(symbols: Seq<&'static Symbol>) -> Seq<char> {
    "Circular dependency detected among:\n"@ + symbol_lines(symbols)
}

impl InitError {
    /// The message of a structural or circular failure; for a failed action,
    /// `cause`, the text of the action's own error.
    pub open spec fn text(&self, cause: Seq<char>) -> Seq<char> {
        match self {
            InitError::Ambiguous { symbol } => ambiguous_text(*symbol),
            InitError::AmbiguousDependency { dependent, symbol } => ambiguous_dependency_text(
                *dependent,
                *symbol,
            ),
            InitError::Circular { symbols } => circular_text(symbols@),
            InitError::Execution(_) => cause,
        }
    }

    /// The message of `self`, where `cause` is the text of the action's error
    /// in case an action failed.
    pub fn render(&self, cause: &str) -> (text: String)
        ensures
            text@ == self.text(cause@),
    {
        let mut text = String::new();
        match self {
            InitError::Ambiguous { symbol } => {
                text.append("Symbol ");
                symbol.write_to(&mut text);
                text.append(" is defined multiple times.");
                assert(text@ =~= ambiguous_text(*symbol));
            },
            InitError::AmbiguousDependency { dependent, symbol } => {
                text.append("Dependency ");
                symbol.write_to(&mut text);
                text.append(" of ");
                dependent.write_to(&mut text);
                text.append(" is defined multiple times.");
                assert(text@ =~= ambiguous_dependency_text(*dependent, *symbol));
            },
            InitError::Circular { symbols } => {
                text.append("Circular dependency detected among:\n");
                let mut i: usize = 0;
                while i < symbols.len()
                    invariant
                        i <= symbols.len(),
                        text@ == "Circular dependency detected among:\n"@ + symbol_lines(
                            symbols@.take(i as int),
                        ),
                    decreases symbols.len() - i,
                {
                    let ghost before = text@;
                    text.append("    ");
                    symbols[i].write_to(&mut text);
                    text.append("\n");
                    proof {
                        let now = symbols@.take(i + 1);
                        assert(now.drop_last() =~= symbols@.take(i as int));
                        assert(now.last() == symbols@[i as int]);
                        assert(text@ =~= "Circular dependency detected among:\n"@ + symbol_lines(
                            now,
                        ));
                    }
                    i += 1;
                }
                assert(symbols@.take(i as int) =~= symbols@);
            },
            InitError::Execution(_) => {
                text.append(cause);
                assert(text@ =~= cause@);
            },
        }
        text
    }

    /// The message of `self`. For a failed action it is the text that the
    /// action's error displays.
    pub fn to_string(&self) -> (text: String)
        ensures
            match self {
                InitError::Execution(e) => to_string_from_display_ensures::<anyhow::Error>(
                    e,
                    text,
                ),
                _ => text@ == self.text(Seq::empty()),
            },
    {
        match self {
            InitError::Execution(e) => e.to_string(),
            _ => self.render(""),
        }
    }

    /// The error of the action that failed, if the run failed that way.
    pub fn source(&self) -> (cause: Option<&anyhow::Error>)
        ensures
            cause == match self {
                InitError::Execution(e) => Some(e),
                _ => None,
            },
    {
        match self {
            InitError::Execution(e) => Some(e),
            _ => None,
        }
    }
}

} // verus!
