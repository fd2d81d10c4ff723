//! Channel identifiers and per-channel metadata for the multi-channel model.

use vstd::prelude::*;
use vstd::string::StringExecFns;

verus! {

/// Dedicated type for an identifier of a channel. Equality is byte-exact.
#[derive(Debug, Eq, Hash)]
pub struct ChannelId(String);

impl View for ChannelId {
    type V = Seq<char>;

    closed spec fn view(&self) -> Seq<char> {
        self.0@
    }
}

impl PartialEq for ChannelId {
    fn eq(&self, other: &ChannelId) -> (r: bool) {
        self.0 == other.0
    }
}

impl vstd::std_specs::cmp::PartialEqSpecImpl for ChannelId {
    open spec fn obeys_eq_spec() -> bool {
        true
    }

    open spec fn eq_spec(&self, other: &ChannelId) -> bool {
        self@ == other@
    }
}

impl Clone for ChannelId {
    fn clone(&self) -> (r: ChannelId)
        ensures
            r@ == self@,
    {
        ChannelId(self.0.clone())
    }
}

impl ChannelId {
    /// Builds a channel identifier from its text.
    pub fn from(item: &str) -> (r: ChannelId)
        ensures
            r@ == item@,
    {
        ChannelId(String::from_str(item))
    }

    /// Builds a channel identifier owning the given text.
    pub fn from_string(item: String) -> (r: ChannelId)
        ensures
            r@ == item@,
    {
        ChannelId(item)
    }

    /// The identifier's text.
    pub fn as_string(&self) -> (r: &String)
        ensures
            r@ == self@,
    {
        &self.0
    }
}

/// Additional information for a channel.
#[derive(Debug, Clone, Copy, PartialEq, Eq, Structural)]
pub struct ChannelInfo {
    pub priority: Option<i32>,
}

impl ChannelInfo {
    pub fn new(priority: Option<i32>) -> (r: ChannelInfo)
        ensures
            r.priority == priority,
    {
        ChannelInfo { priority }
    }
}

impl Default for ChannelInfo {
    /// A channel entry with no priority set.
    fn default() -> (r: ChannelInfo)
        ensures
            r.priority is None,
    {
        ChannelInfo { priority: None }
    }
}

} // verus!
