use vstd::prelude::*;

use crate::text::{push_decimal, push_str, string_of};

verus! {

/// Why the evaluation of a statement stopped early: an error at a line, or a
/// `return` carrying its value up to the function call.
#[derive(Debug, Clone)]
pub enum RuntimeError<V> {
    Error { line: u64, message: String },
    Return(V),
}

/// The text of the error for reading or assigning a variable that no scope defines.
pub open spec fn undefined_message(name: Seq<char>) -> Seq<char> {
    "Variável '"@ + name + "' não definida."@
}

/// The text of the error for a call with the wrong number of arguments.
pub open spec fn arity_message(expected: nat, got: nat) -> Seq<char> {
    "Esperava "@ + crate::text::decimal(expected) + " argumento(s), mas recebeu "@
        + crate::text::decimal(got) + "."@
}

/// The text of the error for reading or setting a property of a value that
/// is no instance.
pub open spec fn not_instance_message(lexeme: Seq<char>) -> Seq<char> {
    "Expressão '"@ + lexeme + "' não é uma instancia válida: "@
}

/// The text of the error for calling something that is not a function.
pub open spec fn not_callable_message(lexeme: Seq<char>) -> Seq<char> {
    "Expressão '"@ + lexeme + "' não é uma função e não pode ser chamada."@
}

impl<V> RuntimeError<V> {
    /// The error for a variable `name` that no enclosing scope defines.
    pub fn undefined(name: &str, line: u64) -> (e: RuntimeError<V>)
        ensures
            e matches RuntimeError::Error { line: l, message: m } && l == line && m@
                == undefined_message(name@),
    {
        let mut m = string_of("Variável '");
        push_str(&mut m, name);
        push_str(&mut m, "' não definida.");
        proof {
            assert(m@ =~= undefined_message(name@));
        }
        RuntimeError::Error { line, message: m }
    }

    /// The error for a call that passes `got` arguments where `expected` are wanted.
    pub fn arity_mismatch(expected: usize, got: usize, line: u64) -> (e: RuntimeError<V>)
        ensures
            e matches RuntimeError::Error { line: l, message: m } && l == line && m@
                == arity_message(expected as nat, got as nat),
    {
        let mut m = string_of("Esperava ");
        push_decimal(&mut m, expected as u64);
        push_str(&mut m, " argumento(s), mas recebeu ");
        push_decimal(&mut m, got as u64);
        push_str(&mut m, ".");
        proof {
            assert(m@ =~= arity_message(expected as nat, got as nat));
        }
        RuntimeError::Error { line, message: m }
    }

    /// The error for calling the value of an expression that is no function;
    /// `lexeme` is the text of the closing parenthesis of the call.
    pub fn not_callable(lexeme: &str, line: u64) -> (e: RuntimeError<V>)
        ensures
            e matches RuntimeError::Error { line: l, message: m } && l == line && m@
                == not_callable_message(lexeme@),
    {
        let mut m = string_of("Expressão '");
        push_str(&mut m, lexeme);
        push_str(&mut m, "' não é uma função e não pode ser chamada.");
        proof {
            assert(m@ =~= not_callable_message(lexeme@));
        }
        RuntimeError::Error { line, message: m }
    }
    /// The error for reading or setting the property `lexeme` of a value
    /// that is no instance.
    pub fn not_instance(lexeme: &str, line: u64) -> (e: RuntimeError<V>)
        ensures
            e matches RuntimeError::Error { line: l, message: m } && l == line && m@
                == not_instance_message(lexeme@),
    {
        let mut m = string_of("Expressão '");
        push_str(&mut m, lexeme);
        push_str(&mut m, "' não é uma instancia válida: ");
        proof {
            assert(m@ =~= not_instance_message(lexeme@));
        }
        RuntimeError::Error { line, message: m }
    }

    /// Whether a call passing `got` arguments to a function of `arity`
    /// parameters may go on: an error at `line` when the counts differ.
    pub fn check_arity(arity: usize, got: usize, line: u64) -> (r: Result<(), RuntimeError<V>>)
        ensures
            r is Ok <==> got == arity,
            r matches Err(e) ==> (e matches RuntimeError::Error { line: l, message: m } && l == line
                && m@ == arity_message(arity as nat, got as nat)),
    {
        if got == arity {
            Ok(())
        } else {
            Err(RuntimeError::arity_mismatch(arity, got, line))
        }
    }
}

/// The built-in function `clock`, which takes no arguments and answers the
/// seconds since the Unix epoch.
#[derive(Debug)]
pub struct ClockFn;

impl ClockFn {
    /// `clock` takes no arguments.
    pub fn arity(&self) -> (n: usize)
        ensures
            n == 0,
    {
        0
    }

    /// The name under which `clock` is defined and shown.
    pub fn name(&self) -> (s: String)
        ensures
            s@ == "clock"@,
    {
        string_of("clock")
    }
}

} // verus!
