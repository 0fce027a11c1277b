//! What one invocation asks for, and where.

use vstd::prelude::*;

verus! {

/// The request of one invocation.
#[derive(Debug, Clone, PartialEq, Eq)]
pub enum Operation {
    /// Show one key, or, without a key, everything visible.
    Print(Option<String>),
    /// Set a key to a value in the current directory.
    Add(String, String),
    /// Remove a key from the current directory.
    Remove(String),
}

/// The context of one invocation.
#[derive(Debug, Clone, PartialEq, Eq)]
pub struct Config {
    /// What to do.
    pub operation: Operation,
    /// The directory from which values are resolved and in which they are
    /// changed.
    pub pwd: String,
    /// The path of the backing file.
    pub config: String,
}

/// Why a list of arguments is no request: a command was given another number
/// of arguments than it takes. Each variant holds the number it was given.
#[derive(Debug, Clone, Copy, PartialEq, Eq)]
pub enum RequestError {
    /// `add` takes a key and a value.
    AddArguments(usize),
    /// `rm` takes a key.
    RemoveArguments(usize),
    /// Showing takes one key or none, and got several words.
    PrintArguments(usize),
}

/// The request that a list of arguments stands for.
///
/// No argument asks for everything; `add KEY VALUE` sets, `rm KEY` removes,
/// and a single other word is a key to show.
pub open spec fn request_of(args: Seq<String>) -> Result<Operation, RequestError> {
    if args.len() == 0 {
        Ok(Operation::Print(None))
    } else if args[0]@ == "add"@ {
        if args.len() == 3 {
            Ok(Operation::Add(args[1], args[2]))
        } else {
            Err(RequestError::AddArguments((args.len() - 1) as usize))
        }
    } else if args[0]@ == "rm"@ {
        if args.len() == 2 {
            Ok(Operation::Remove(args[1]))
        } else {
            Err(RequestError::RemoveArguments((args.len() - 1) as usize))
        }
    } else if args.len() == 1 {
        Ok(Operation::Print(Some(args[0])))
    } else {
        Err(RequestError::PrintArguments(args.len() as usize))
    }
}

impl Operation {
    /// Reads a request from the arguments that follow the options.
    pub fn from_args(args: Vec<String>) -> (r: Result<Operation, RequestError>)
        ensures
            r == request_of(args@),
    {
        let mut args = args;
        let n: usize = args.len();
        if n == 0 {
            return Ok(Operation::Print(None));
        }
        let add = "add".to_owned();
        let rm = "rm".to_owned();
        if args[0] == add {
            if n != 3 {
                return Err(RequestError::AddArguments(n - 1));
            }
            let value = args.pop().unwrap();
            let key = args.pop().unwrap();
            return Ok(Operation::Add(key, value));
        }
        if args[0] == rm {
            if n != 2 {
                return Err(RequestError::RemoveArguments(n - 1));
            }
            let key = args.pop().unwrap();
            return Ok(Operation::Remove(key));
        }
        if n > 1 {
            return Err(RequestError::PrintArguments(n));
        }
        let key = args.pop().unwrap();
        Ok(Operation::Print(Some(key)))
    }
}

} // verus!
