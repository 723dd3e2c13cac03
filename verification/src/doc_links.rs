//! Documentation links for symbols that live in the standard library
//! distribution: modules and functions link to their manual pages.

use vstd::prelude::*;

use crate::strutil::concat2;
use crate::strutil::concat3;
use crate::strutil::concat5;
use crate::strutil::spec_decimal;
use crate::strutil::u32_to_string;

verus! {

/// A titled documentation link.
#[derive(Debug)]
pub struct DocLink {
    pub title: String,
    pub uri: String,
}

/// The resolved symbol a link is requested for.
#[derive(Debug)]
pub enum SymbolDefinition {
    Module { name: String, in_otp: bool },
    Function { name: String, arity: u32, in_otp: bool, module_name: Option<String> },
    Other,
}

/// The link produced for a symbol, if any: only symbols from the
/// standard distribution get one.
pub open spec fn spec_link(def: SymbolDefinition) -> Option<(Seq<char>, Seq<char>)> {
    match def {
        SymbolDefinition::Module { name, in_otp } => if in_otp {
            Some((name@, "https://erlang.org/doc/man/"@ + name@ + ".html"@))
        } else {
            None
        },
        SymbolDefinition::Function { name, arity, in_otp, module_name } => if in_otp
            && module_name is Some {
            Some(
                (
                    module_name->Some_0@ + ":"@ + name@ + "/"@ + spec_decimal(arity as int),
                    "https://erlang.org/doc/man/"@ + module_name->Some_0@ + ".html#"@ + name@
                        + "/"@ + spec_decimal(arity as int),
                ),
            )
        } else {
            None
        },
        SymbolDefinition::Other => None,
    }
}

/// Appends the manual-page link for a resolved symbol, when it comes
/// from the standard distribution.
pub fn links(res: &mut Vec<DocLink>, def: &SymbolDefinition)
    ensures
        match spec_link(*def) {
            Some((title, uri)) => {
                &&& final(res)@.len() == old(res)@.len() + 1
                &&& forall|i: int| 0 <= i < old(res)@.len() ==> final(res)@[i] == old(res)@[i]
                &&& final(res)@[old(res)@.len() as int].title@ == title
                &&& final(res)@[old(res)@.len() as int].uri@ == uri
            },
            None => final(res)@ == old(res)@,
        },
{
    match def {
        SymbolDefinition::Module { name, in_otp } => {
            if *in_otp {
                let uri = concat3("https://erlang.org/doc/man/", name.as_str(), ".html");
                res.push(DocLink { title: name.clone(), uri });
            }
        },
        SymbolDefinition::Function { name, arity, in_otp, module_name } => {
            if *in_otp {
                match module_name {
                    Some(m) => {
                        let ar = u32_to_string(*arity);
                        let title = concat5(m.as_str(), ":", name.as_str(), "/", ar.as_str());
                        let head = concat3("https://erlang.org/doc/man/", m.as_str(), ".html#");
                        let tail = concat3(name.as_str(), "/", ar.as_str());
                        let uri = concat2(head.as_str(), tail.as_str());
                        proof {
                            assert(uri@ =~= "https://erlang.org/doc/man/"@ + m@ + ".html#"@ + name@
                                + "/"@ + spec_decimal(*arity as int));
                        }
                        res.push(DocLink { title, uri });
                    },
                    None => {},
                }
            }
        },
        SymbolDefinition::Other => {},
    }
}

} // verus!
