//! The key-management commands' arguments.
//!
//! The commands themselves act on a keystore and a terminal, which the
//! process around the library owns; the library holds the argument shapes
//! and the one decision they embody: the key name is the first positional
//! argument and is required.

use vstd::prelude::*;

verus! {

/// Add a new Cosmos key under a name.
#[derive(Debug, Default)]
pub struct AddCosmosKeyCmd {
    pub args: Vec<String>,
    pub overwrite: bool,
}

/// Delete an Ethereum key by name.
#[derive(Debug, Default)]
pub struct DeleteEthKeyCmd {
    pub args: Vec<String>,
}

/// Import an Ethereum key under a name, from an argument or a prompt.
#[derive(Debug, Default)]
pub struct ImportEthKeyCmd {
    pub args: Vec<String>,
    pub overwrite: bool,
}

/// List all Ethereum keys.
#[derive(Debug, Default)]
pub struct ListEthKeyCmd {}

/// The required key name: the first positional argument, if given.
pub fn key_name_arg(args: &Vec<String>) -> (r: Option<&String>)
    ensures
        r is Some <==> args@.len() > 0,
        r is Some ==> r->0 == &args@[0],
{
    if args.len() > 0 {
        Some(&args[0])
    } else {
        None
    }
}

impl AddCosmosKeyCmd {
    /// The name to store the new key under.
    pub fn key_name(&self) -> (r: Option<&String>)
        ensures
            r is Some <==> self.args@.len() > 0,
            r is Some ==> r->0 == &self.args@[0],
    {
        key_name_arg(&self.args)
    }
}

impl DeleteEthKeyCmd {
    /// The name of the key to delete.
    pub fn key_name(&self) -> (r: Option<&String>)
        ensures
            r is Some <==> self.args@.len() > 0,
            r is Some ==> r->0 == &self.args@[0],
    {
        key_name_arg(&self.args)
    }
}

impl ImportEthKeyCmd {
    /// The name to store the imported key under.
    pub fn key_name(&self) -> (r: Option<&String>)
        ensures
            r is Some <==> self.args@.len() > 0,
            r is Some ==> r->0 == &self.args@[0],
    {
        key_name_arg(&self.args)
    }

    /// The private key, when it was given as the second argument; absent
    /// means the command prompts for it.
    pub fn private_key_arg(&self) -> (r: Option<&String>)
        ensures
            r is Some <==> self.args@.len() > 1,
            r is Some ==> r->0 == &self.args@[1],
    {
        if self.args.len() > 1 {
            Some(&self.args[1])
        } else {
            None
        }
    }
}

} // verus!
