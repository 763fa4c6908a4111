//! Why no route to a target was found.
use crate::text::{join, push_decimal};
use vstd::prelude::*;

verus! {

/// Why no route to a target was found.
#[derive(Debug)]
pub enum RouteError {
    /// No interface reaches the direct server without a tunnel.
    NoInterface,
    /// No interface connected to the target; what went wrong on each of them.
    NotConnected { target: String, failures: Vec<String> },
    /// The target has no IPv4 address.
    NoIpv4 { target: String },
    /// nip.io gave no IPv6 address.
    NoIpv6,
    /// The target has no address at all.
    NoAddress { target: String },
    /// The target is no address for a proxy, and why.
    NotAnAddress { reason: String },
}

/// The views of a list of texts.
pub open spec fn text_views(texts: Seq<String>) -> Seq<Seq<char>> {
    texts.map_values(|text: String| text@)
}

/// The text of an error.
pub open spec fn error_text(error: RouteError) -> Seq<char> {
    match error {
        RouteError::NoInterface =>
            "Direct-server bypass found no connected physical or external Hyper-V IPv4 interface with a gateway"@,
        RouteError::NotConnected { target, failures } =>
            "Direct-server bypass failed to connect to "@ + target@ + ": "@ + join(
            text_views(failures@),
            "; "@,
        ),
        RouteError::NoIpv4 { target } =>
            "Direct-server bypass failed to resolve an IPv4 address for "@ + target@,
        RouteError::NoIpv6 => "Failed to get ipv6 from nip.io"@,
        RouteError::NoAddress { target } => "Failed to look up host for "@ + target@,
        RouteError::NotAnAddress { reason } => reason@,
    }
}

/// The text for an attempt that failed on one interface.
pub open spec fn failure_text(name: Seq<char>, index: u32, error: Seq<char>) -> Seq<char> {
    name + " (index "@ + decimal_of(index) + "): "@ + error
}

/// The decimal text of an interface index.
pub open spec fn decimal_of(index: u32) -> Seq<char> {
    crate::text::decimal(index as nat)
}

/// The text for an attempt that failed on one interface.
pub fn failure_message(name: &str, index: u32, error: &str) -> (text: String)
    ensures
        text@ == failure_text(name@, index, error@),
{
    let mut text: String = name.to_owned();
    text.append(" (index ");
    push_decimal(&mut text, index as u64);
    text.append("): ");
    text.append(error);
    text
}

/// The texts in a list, one after the other, with `sep` between them.
fn joined(texts: &Vec<String>, sep: &str) -> (text: String)
    ensures
        text@ == join(text_views(texts@), sep@),
{
    let mut text = String::new();
    let ghost views = text_views(texts@);
    let mut i: usize = 0;
    while i < texts.len()
        invariant
            i <= texts@.len(),
            views == text_views(texts@),
            text@ == join(views.take(i as int), sep@),
        decreases texts@.len() - i,
    {
        assert(views.take(i + 1).drop_last() =~= views.take(i as int));
        if i > 0 {
            text.append(sep);
        }
        text.append(texts[i].as_str());
        i += 1;
        assert(text@ =~= join(views.take(i as int), sep@));
    }
    assert(views.take(i as int) =~= views);
    text
}

impl RouteError {
    /// The text of this error.
    pub fn message(&self) -> (text: String)
        ensures
            text@ == error_text(*self),
    {
        match self {
            RouteError::NoInterface =>
                "Direct-server bypass found no connected physical or external Hyper-V IPv4 interface with a gateway".to_owned(),
            RouteError::NotConnected { target, failures } => {
                let mut text: String = "Direct-server bypass failed to connect to ".to_owned();
                text.append(target.as_str());
                text.append(": ");
                text.append(joined(failures, "; ").as_str());
                text
            },
            RouteError::NoIpv4 { target } => {
                let mut text: String =
                    "Direct-server bypass failed to resolve an IPv4 address for ".to_owned();
                text.append(target.as_str());
                text
            },
            RouteError::NoIpv6 => "Failed to get ipv6 from nip.io".to_owned(),
            RouteError::NoAddress { target } => {
                let mut text: String = "Failed to look up host for ".to_owned();
                text.append(target.as_str());
                text
            },
            RouteError::NotAnAddress { reason } => reason.clone(),
        }
    }
}

} // verus!
