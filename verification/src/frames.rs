//! Frame identifiers and per-frame metadata.

use vstd::prelude::*;
use vstd::string::StringExecFns;

verus! {

/// Dedicated type for an identifier of a frame. Equality is byte-exact.
#[derive(Debug, Eq, Hash)]
pub struct FrameId(String);

impl View for FrameId {
    type V = Seq<char>;

    closed spec fn view(&self) -> Seq<char> {
        self.0@
    }
}

impl PartialEq for FrameId {
    fn eq(&self, other: &FrameId) -> (r: bool) {
        self.0 == other.0
    }
}

impl vstd::std_specs::cmp::PartialEqSpecImpl for FrameId {
    open spec fn obeys_eq_spec() -> bool {
        true
    }

    open spec fn eq_spec(&self, other: &FrameId) -> bool {
        self@ == other@
    }
}

impl Clone for FrameId {
    fn clone(&self) -> (r: FrameId)
        ensures
            r@ == self@,
    {
        FrameId(self.0.clone())
    }
}

impl FrameId {
    /// Builds a frame identifier from its text.
    pub fn from(item: &str) -> (r: FrameId)
        ensures
            r@ == item@,
    {
        FrameId(String::from_str(item))
    }

    /// Builds a frame identifier owning the given text.
    pub fn from_string(item: String) -> (r: FrameId)
        ensures
            r@ == item@,
    {
        FrameId(item)
    }

    /// The identifier's text.
    pub fn as_string(&self) -> (r: &String)
        ensures
            r@ == self@,
    {
        &self.0
    }

    /// Standard global reference frame identifier.
    pub fn global() -> (r: FrameId)
        ensures
            r@ == "global"@,
    {
        FrameId::from("global")
    }

    /// Standard local reference frame identifier.
    pub fn local() -> (r: FrameId)
        ensures
            r@ == "local"@,
    {
        FrameId::from("local")
    }

    /// Standard base_link reference frame identifier.
    pub fn base_link() -> (r: FrameId)
        ensures
            r@ == "base_link"@,
    {
        FrameId::from("base_link")
    }

    /// Map frame - typically a static map coordinate frame.
    pub fn map() -> (r: FrameId)
        ensures
            r@ == "map"@,
    {
        FrameId::from("map")
    }

    /// Submap frame - frame for a portion of a larger map.
    pub fn submap() -> (r: FrameId)
        ensures
            r@ == "submap"@,
    {
        FrameId::from("submap")
    }

    /// Platform frame - frame of the platform, e.g. vehicle, etc.
    pub fn platform() -> (r: FrameId)
        ensures
            r@ == "platform"@,
    {
        FrameId::from("platform")
    }

    /// Odometry frame - frame for odometry data.
    pub fn odom() -> (r: FrameId)
        ensures
            r@ == "odom"@,
    {
        FrameId::from("odom")
    }

    /// Sensor frame - frame of a sensor, e.g. camera, lidar, etc.
    pub fn sensor() -> (r: FrameId)
        ensures
            r@ == "sensor"@,
    {
        FrameId::from("sensor")
    }
}

/// Additional information attached to a frame; never consulted during
/// composition.
#[derive(Debug)]
pub struct FrameInfo {
    pub id: FrameId,
    pub description: Option<String>,
    pub crs_epsg: Option<u32>,
}

/// The spec-level value of a frame entry.
pub struct FrameInfoView {
    pub id: Seq<char>,
    pub description: Option<Seq<char>>,
    pub crs_epsg: Option<u32>,
}

impl View for FrameInfo {
    type V = FrameInfoView;

    open spec fn view(&self) -> FrameInfoView {
        FrameInfoView {
            id: self.id@,
            description: match self.description {
                Some(d) => Some(d@),
                None => None,
            },
            crs_epsg: self.crs_epsg,
        }
    }
}

impl Clone for FrameInfo {
    fn clone(&self) -> (r: FrameInfo)
        ensures
            r@ == self@,
    {
        let description = match &self.description {
            Some(d) => Some(d.clone()),
            None => None,
        };
        FrameInfo { id: self.id.clone(), description, crs_epsg: self.crs_epsg }
    }
}

impl FrameInfo {
    pub fn new(id: FrameId, description: Option<String>, crs_epsg: Option<u32>) -> (r: FrameInfo)
        ensures
            r.id@ == id@,
            r.description == description,
            r.crs_epsg == crs_epsg,
    {
        FrameInfo { id, description, crs_epsg }
    }

    /// A frame entry carrying nothing but its identifier.
    pub fn bare(id: FrameId) -> (r: FrameInfo)
        ensures
            r.id@ == id@,
            r.description is None,
            r.crs_epsg is None,
    {
        FrameInfo { id, description: None, crs_epsg: None }
    }
}

} // verus!
