//! The names under which functions and methods are registered as commands.
use vstd::prelude::*;
use vstd::string::StringExecFns;
use crate::address::{joined, lemma_resolving_without_percent, resolved};
use crate::text::{lowercase, lowercase_of};

verus! {

/// The text of an optional text.
pub open spec fn given_text(text: Option<&str>) -> Option<Seq<char>> {
    match text {
        Some(t) => Some(t@),
        None => None,
    }
}

/// The name of the command that a function becomes: the name given for it,
/// or the name of the function in lower case.
pub open spec fn command_name_of(given: Option<Seq<char>>, function: Seq<char>) -> Seq<char> {
    match given {
        Some(name) => name,
        None => lowercase_of(function),
    }
}

/// The name of the service that an impl block becomes: the name given for
/// it; else the name of the trait, in lower case; else the name of the type,
/// in lower case. There is none where nothing is given and the block has
/// neither a trait nor a type with a name.
pub open spec fn service_name_of(
    given: Option<Seq<char>>,
    trait_name: Option<Seq<char>>,
    owner_name: Option<Seq<char>>,
) -> Option<Seq<char>> {
    match given {
        Some(name) => Some(name),
        None => match trait_name {
            Some(name) => Some(lowercase_of(name)),
            None => match owner_name {
                Some(name) => Some(lowercase_of(name)),
                None => None,
            },
        },
    }
}

/// The name of the command that a method of a service becomes.
pub open spec fn method_command_of(service: Seq<char>, method: Seq<char>) -> Seq<char> {
    service + "/"@ + method
}

/// The name of the function that stands between the registry and a method.
pub open spec fn wrapper_name_of(service: Seq<char>, method: Seq<char>) -> Seq<char> {
    "__cmd_"@ + service + "_"@ + method
}

/// Names the command that a function becomes.
pub fn command_name(given: Option<&str>, function: &str) -> (name: String)
    ensures
        name@ == command_name_of(given_text(given), function@),
{
    match given {
        Some(name) => String::from_str(name),
        None => lowercase(function),
    }
}

/// Names the service that an impl block becomes, if it can be named.
pub fn service_name(
    given: Option<&str>,
    trait_name: Option<&str>,
    owner_name: Option<&str>,
) -> (name: Option<String>)
    ensures
        service_name_of(given_text(given), given_text(trait_name), given_text(owner_name))
            == match name {
            Some(text) => Some(text@),
            None => None,
        },
{
    match given {
        Some(name) => Some(String::from_str(name)),
        None => match trait_name {
            Some(name) => Some(lowercase(name)),
            None => match owner_name {
                Some(name) => Some(lowercase(name)),
                None => None,
            },
        },
    }
}

/// Names the command that a method of a service becomes.
pub fn method_command(service: &str, method: &str) -> (name: String)
    ensures
        name@ == method_command_of(service@, method@),
{
    let mut name = String::from_str(service);
    name.append("/");
    name.append(method);
    name
}

/// Names the function that stands between the registry and a method.
pub fn wrapper_name(service: &str, method: &str) -> (name: String)
    ensures
        name@ == wrapper_name_of(service@, method@),
{
    let mut name = String::from_str("__cmd_");
    name.append(service);
    name.append("_");
    name.append(method);
    name
}

/// The command of a method is reached at the address of its service and its
/// method: the address whose authority is the service and whose path is the
/// method behind a slash resolves to the name of the command. This holds of
/// names as identifiers give them: without a percent sign, the service not
/// beginning and the method not ending with a slash, neither empty.
pub proof fn lemma_method_is_reached_at_its_address(service: Seq<char>, method: Seq<char>)
    requires
        service.len() > 0,
        method.len() > 0,
        service[0] != '/',
        method.last() != '/',
        forall|i: int| 0 <= i < service.len() ==> service[i] != '%',
        forall|i: int| 0 <= i < method.len() ==> method[i] != '%',
    ensures
        resolved(service, "/"@ + method) == method_command_of(service, method),
{
    reveal_strlit("/");
    let path = "/"@ + method;
    assert forall|i: int| 0 <= i < path.len() implies path[i] != '%' by {
        if i > 0 {
            assert(path[i] == method[i - 1]);
        }
    }
    lemma_resolving_without_percent(service, path);
    assert(joined(service, path) =~= method_command_of(service, method));
}

} // verus!
