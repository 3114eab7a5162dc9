//! The command line of a node.

use crate::error::Error;
use vstd::prelude::*;

verus! {

/// What the program is called, and what it is called where that is not known.
pub open spec fn program(args: Seq<String>) -> Seq<char> {
    if args.len() > 0 {
        args[0]@
    } else {
        "rskynet-main"@
    }
}

/// How the program is to be called.
pub fn usage(program: &str) -> (error: Error)
    ensures
        error is Config,
        error.text() == "用法："@ + program@ + " <config.toml>"@,
{
    let mut text = "用法：".to_owned();
    text.append(program);
    text.append(" <config.toml>");
    Error::Config(text)
}

/// Which argument is the path of the configuration. After the name of the program there is one
/// argument, and no more.
pub fn config_argument(args: &Vec<String>) -> (result: Result<usize, Error>)
    ensures
        args@.len() == 2 ==> (result matches Ok(place) && place == 1),
        args@.len() != 2 ==> (result matches Err(error) && error is Config && error.text()
            == "用法："@ + program(args@) + " <config.toml>"@),
{
    if args.len() == 2 {
        return Ok(1);
    }
    if args.len() == 0 {
        return Err(usage("rskynet-main"));
    }
    Err(usage(args[0].as_str()))
}

} // verus!
