//! Manual-page links for standard-distribution symbols.

use elp_core::doc_links::DocLink;
use elp_core::doc_links::SymbolDefinition;
use elp_core::doc_links::links;

fn run(def: &SymbolDefinition) -> Vec<DocLink> {
    let mut res = Vec::new();
    links(&mut res, def);
    res
}

#[test]
fn otp_module_doc_links() {
    let def = SymbolDefinition::Module { name: "lists".to_string(), in_otp: true };
    let res = run(&def);
    assert_eq!(res.len(), 1);
    assert_eq!(res[0].uri, "https://erlang.org/doc/man/lists.html");
    assert_eq!(res[0].title, "lists");
}

#[test]
fn otp_function_doc_links() {
    let def = SymbolDefinition::Function {
        name: "reverse".to_string(),
        arity: 1,
        in_otp: true,
        module_name: Some("lists".to_string()),
    };
    let res = run(&def);
    assert_eq!(res.len(), 1);
    assert_eq!(res[0].uri, "https://erlang.org/doc/man/lists.html#reverse/1");
    assert_eq!(res[0].title, "lists:reverse/1");
}

#[test]
fn no_link_outside_the_standard_distribution() {
    let def = SymbolDefinition::Module { name: "my_app".to_string(), in_otp: false };
    assert_eq!(run(&def).len(), 0);
    let f = SymbolDefinition::Function {
        name: "go".to_string(),
        arity: 2,
        in_otp: false,
        module_name: Some("my_app".to_string()),
    };
    assert_eq!(run(&f).len(), 0);
}
