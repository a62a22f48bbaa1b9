use vstd::prelude::*;
use crate::value::{Key, V};

verus! {

/// A pull pattern: the attribute specifications to expand for an entity.
pub struct Pattern {
    pub specs: Vec<AttrSpec>,
}

/// How deep a recursion may go.
pub enum RecursionLimit {
    Bounded(u32),
    Unbounded,
}

/// One element of a pull pattern.
pub enum AttrSpec {
    Wildcard,
    Attribute(Attribute),
    Recursion(Recursion),
}

/// An attribute to pull, with its options.
pub struct Attribute {
    pub name: Key,
    pub rename: Option<V>,
    pub limit: Option<u32>,
    pub default: Option<V>,
    pub reverse: bool,
}

/// A reference attribute to follow, up to `limit` levels, applying
/// `pattern` (or, when it is `None`, the enclosing pattern) to each entity
/// reached.
pub struct Recursion {
    pub target: Attribute,
    pub limit: RecursionLimit,
    pub pattern: Option<Pattern>,
}

/// The limit on values pulled for an attribute unless one is given.
pub const DEFAULT_LIMIT: u32 = 1000;

impl Pattern {
    pub fn new(specs: Vec<AttrSpec>) -> (r: Self)
        ensures
            r.specs == specs,
    {
        Pattern { specs }
    }
}

impl Recursion {
    /// A recursion that applies the enclosing pattern.
    pub fn new(target: Attribute, limit: RecursionLimit) -> (r: Self)
        ensures
            r.target == target,
            r.limit == limit,
            r.pattern is None,
    {
        Recursion { target, limit, pattern: None }
    }
}

impl Attribute {
    /// The attribute `name`, not renamed, without a default, followed
    /// forwards, and limited to the default count of values.
    pub fn new(name: Key) -> (r: Attribute)
        ensures
            r.name == name,
            r.rename is None,
            r.limit == Some(DEFAULT_LIMIT),
            r.default is None,
            !r.reverse,
    {
        Attribute { name, rename: None, limit: Some(DEFAULT_LIMIT), default: None, reverse: false }
    }

    /// The same attribute, followed from the referenced entity back to the
    /// referring one.
    pub fn reverse(self) -> (r: Self)
        ensures
            r.reverse,
            r.name == self.name,
            r.rename == self.rename,
            r.limit == self.limit,
            r.default == self.default,
    {
        let mut r = self;
        r.reverse = true;
        r
    }
}

fn keyword(name: &str) -> (r: Key)
    ensures
        r.0@ == name@,
{
    Key(name.to_string())
}

/// The example patterns: an artist's name and id; the artists of a country,
/// reached backwards through `:artist/country`; and a track's name with its
/// entity id followed one level.
pub fn test() -> (r: Vec<Pattern>)
    ensures
        r.len() == 3,
        r@[0].specs.len() == 2,
        r@[0].specs@[0] matches AttrSpec::Attribute(x) && !x.reverse && x.name.0@
            == ":artist/name"@,
        r@[0].specs@[1] matches AttrSpec::Attribute(x) && !x.reverse && x.name.0@
            == ":artist/gid"@,
        r@[1].specs.len() == 1,
        r@[1].specs@[0] matches AttrSpec::Attribute(x) && x.reverse && x.name.0@
            == ":artist/country"@,
        r@[2].specs.len() == 2,
        r@[2].specs@[0] matches AttrSpec::Attribute(x) && !x.reverse && x.name.0@
            == ":track/name"@,
        r@[2].specs@[1] matches AttrSpec::Recursion(x) && x.limit == RecursionLimit::Bounded(1)
            && x.pattern is None && x.target.name.0@ == ":db/id"@,
{
    let db_id = keyword(":db/id");
    let artist_name = keyword(":artist/name");
    let artist_gid = keyword(":artist/gid");
    let artist_country = keyword(":artist/country");
    let track_name = keyword(":track/name");

    let attribute_names = Pattern::new(
        vec![
            AttrSpec::Attribute(Attribute::new(artist_name)),
            AttrSpec::Attribute(Attribute::new(artist_gid)),
        ],
    );
    let reverse_attribute = Pattern::new(
        vec![AttrSpec::Attribute(Attribute::new(artist_country).reverse())],
    );
    let map_spec = Pattern::new(
        vec![
            AttrSpec::Attribute(Attribute::new(track_name)),
            AttrSpec::Recursion(Recursion::new(Attribute::new(db_id), RecursionLimit::Bounded(1))),
        ],
    );
    vec![attribute_names, reverse_attribute, map_spec]
}

} // verus!
