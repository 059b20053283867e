use vstd::prelude::*;

verus! {

/// Why a document, an expression or an evaluation was rejected.
///
/// Block-structure problems carry the 0-based line they were found on;
/// lexing problems carry the character position in the blank-free
/// expression; evaluation problems carry the index of the postfix token
/// being processed (the length of the expression for the final step).
#[derive(Debug, PartialEq, Eq, Structural, Copy, Clone)]
pub enum EngineError {
    /// A closing brace with no block left open.
    UnmatchedClosingBrace { line: usize },
    /// A block still open when the document ends.
    UnclosedBlock { line: usize },
    /// A section whose keyword is not `Does`, `Warn` or `Deny`.
    UnknownSection { line: usize },
    /// A section holding text where blocks are expected, or the reverse.
    MisplacedContent { line: usize },
    /// A `Test`, `Message` or `Hint` key given twice in one entry.
    DuplicateKey,
    /// A warning or denial entry without a `Test`.
    MissingTest,
    /// A line lacking the `=` or `:` that its form requires.
    MissingSeparator,
    /// A message, hint or string literal not enclosed in double quotes.
    UnquotedText,
    /// A literal that is neither a quoted string, a boolean nor a 32-bit number.
    InvalidLiteral,
    /// A literal whose kind differs from the declared kind.
    KindMismatch,
    /// A `)` with no `(` before it, or a parenthesis token holding another character.
    UnmatchedParenthesis { position: usize },
    /// Characters that do not form any operator.
    UnknownOperator { position: usize },
    /// A string literal without its closing quote.
    UnterminatedString { position: usize },
    /// A digit run whose value does not fit in 32 bits.
    NumberOutOfRange { position: usize },
    /// Operand kinds outside the operator's signature.
    TypeMismatch { position: usize },
    /// A variable with no binding in the environment.
    UnboundName { position: usize },
    /// A division whose right operand is zero.
    DivisionByZero { position: usize },
    /// A result outside the 32-bit signed range.
    Overflow { position: usize },
    /// Missing operands, a parenthesis in postfix input, or not exactly one result.
    MalformedExpression { position: usize },
}

} // verus!
