use vstd::prelude::*;

use crate::errors::ArgsParseError;
use crate::storage::KVAction;

verus! {

/// A parsed command line: the action, its key, and (for a `set`) its value.
#[derive(Debug, PartialEq)]
pub struct Args {
    pub action: KVAction,
    pub key: String,
    pub value: Option<String>,
}

/// What parsing a token list yields: either the action with its key and
/// optional value, or the exact diagnostic text of the usage error.
///
/// A `get` takes exactly one key; a `set` takes a key and a value, and any
/// further tokens are ignored.
pub open spec fn spec_parse_args(args: Seq<Seq<char>>) -> Result<
    (KVAction, Seq<char>, Option<Seq<char>>),
    Seq<char>,
> {
    if args.len() == 0 {
        Err("Missing action"@)
    } else if args[0] != "get"@ && args[0] != "set"@ {
        Err("Unknown action: "@ + args[0])
    } else if args.len() == 1 {
        Err("Missing key"@)
    } else if args[0] == "get"@ {
        if args.len() == 2 {
            Ok((KVAction::GET, args[1], None))
        } else {
            Err("Too many arguments to get"@)
        }
    } else {
        if args.len() == 2 {
            Err("Missing value"@)
        } else {
            Ok((KVAction::SET, args[1], Some(args[2])))
        }
    }
}

impl Args {
    /// Turns the raw command-line tokens (program name already dropped) into
    /// a typed request, or reports exactly which token is wrong or missing.
    pub fn parse_args(args: Vec<String>) -> (r: Result<Self, ArgsParseError>)
        ensures
            match r {
                Ok(a) => spec_parse_args(args.deep_view()) == Ok::<
                    (KVAction, Seq<char>, Option<Seq<char>>),
                    Seq<char>,
                >((a.action, a.key@, a.value.deep_view())),
                Err(e) => spec_parse_args(args.deep_view()) == Err::<
                    (KVAction, Seq<char>, Option<Seq<char>>),
                    Seq<char>,
                >(e.0@),
            },
    {
        if args.len() == 0 {
            return Err(ArgsParseError(String::from_str("Missing action")));
        }
        let action = match KVAction::from_str(args[0].as_str()) {
            Ok(v) => v,
            Err(e) => {
                return Err(ArgsParseError(e.message()));
            },
        };
        if args.len() == 1 {
            return Err(ArgsParseError(String::from_str("Missing key")));
        }
        let key = args[1].clone();
        match action {
            KVAction::GET => {
                if args.len() >= 3 {
                    return Err(ArgsParseError(String::from_str("Too many arguments to get")));
                }
                Ok(Self { action, key, value: None })
            },
            KVAction::SET => {
                if args.len() == 2 {
                    return Err(ArgsParseError(String::from_str("Missing value")));
                }
                Ok(Self { action, key, value: Some(args[2].clone()) })
            },
        }
    }
}

} // verus!
