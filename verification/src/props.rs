use vstd::prelude::*;

use crate::Property;

verus! {

/// One past the largest Unicode codepoint, 0x10FFFF.
pub const CODEPOINT_LIMIT: u32 = 0x110000;

/// A codepoint that is a Unicode scalar value: below the limit and not a
/// surrogate.
pub open spec fn is_scalar_value(code: int) -> bool {
    &&& 0 <= code < 0x110000
    &&& !(0xD800 <= code < 0xE000)
}

/// Runtime test for [`is_scalar_value`].
pub fn scalar_value(code: u32) -> (r: bool)
    ensures
        r == is_scalar_value(code as int),
{
    code < CODEPOINT_LIMIT && !(0xD800 <= code && code < 0xE000)
}

/// The property source: for each of the two properties, the set of
/// codepoints that possess it, as a direct membership table over the whole
/// codepoint space, together with the Unicode version the data came from.
pub struct Properties {
    unicode_version: (u64, u64, u64),
    start: Vec<bool>,
    cont: Vec<bool>,
}

impl Properties {
    /// Both membership tables cover every codepoint below the limit.
    pub closed spec fn wf(self) -> bool {
        &&& self.start@.len() == 0x110000
        &&& self.cont@.len() == 0x110000
    }

    /// Whether codepoint `code` has property `property`. Codepoints outside
    /// the Unicode range have neither property.
    pub closed spec fn has(self, property: Property, code: int) -> bool {
        &&& 0 <= code < 0x110000
        &&& match property {
            Property::Start => self.start@[code],
            Property::Continue => self.cont@[code],
        }
    }

    pub closed spec fn spec_unicode_version(self) -> (u64, u64, u64) {
        self.unicode_version
    }

    /// An empty source: no codepoint has either property yet.
    pub fn new(unicode_version: (u64, u64, u64)) -> (r: Properties)
        ensures
            r.wf(),
            r.spec_unicode_version() == unicode_version,
            forall|p: Property, code: int| !r.has(p, code),
    {
        Properties {
            unicode_version,
            start: vec![false; 0x110000],
            cont: vec![false; 0x110000],
        }
    }

    /// The version of the Unicode character database the sets were read from.
    pub fn unicode_version(&self) -> (r: (u64, u64, u64))
        ensures
            r == self.spec_unicode_version(),
    {
        self.unicode_version
    }

    /// Marks every codepoint in `lo ..= hi` as having `property`.
    pub fn insert_range(&mut self, property: Property, lo: u32, hi: u32)
        requires
            old(self).wf(),
            lo <= hi < 0x110000,
        ensures
            final(self).wf(),
            final(self).spec_unicode_version() == old(self).spec_unicode_version(),
            forall|p: Property, code: int|
                final(self).has(p, code) == (old(self).has(p, code) || (p == property && lo <= code
                    <= hi)),
    {
        let mut c: u32 = lo;
        while c <= hi
            invariant
                lo <= c <= hi + 1,
                hi < 0x110000,
                self.wf(),
                self.spec_unicode_version() == old(self).spec_unicode_version(),
                forall|p: Property, code: int|
                    self.has(p, code) == (old(self).has(p, code) || (p == property && lo <= code
                        < c)),
            decreases hi + 1 - c,
        {
            match property {
                Property::Start => self.start.set(c as usize, true),
                Property::Continue => self.cont.set(c as usize, true),
            }
            c = c + 1;
        }
    }

    /// Membership lookup by raw codepoint value.
    pub fn has_code(&self, property: Property, code: u32) -> (r: bool)
        requires
            self.wf(),
        ensures
            r == self.has(property, code as int),
    {
        if code >= CODEPOINT_LIMIT {
            return false;
        }
        match property {
            Property::Start => self.start[code as usize],
            Property::Continue => self.cont[code as usize],
        }
    }

    /// Whether `ch` may start an identifier according to this source.
    pub fn is_xid_start(&self, ch: char) -> (r: bool)
        requires
            self.wf(),
        ensures
            r == self.has(Property::Start, ch as int),
    {
        self.has_code(Property::Start, ch as u32)
    }

    /// Whether `ch` may continue an identifier according to this source.
    pub fn is_xid_continue(&self, ch: char) -> (r: bool)
        requires
            self.wf(),
        ensures
            r == self.has(Property::Continue, ch as int),
    {
        self.has_code(Property::Continue, ch as u32)
    }
}

/// Membership after the compatibility patch: property `p` with every
/// codepoint listed in `exclusions` removed from the Continue set.
pub open spec fn spec_member(
    props: Properties,
    exclusions: Seq<u32>,
    p: Property,
    code: int,
) -> bool {
    &&& props.has(p, code)
    &&& !(p == Property::Continue && exclusions.contains(code as u32))
}

/// The bit the chunk tables store for `code`: membership restricted to
/// non-ASCII scalar values (ASCII has its own direct table).
pub open spec fn spec_member_bit(
    props: Properties,
    exclusions: Seq<u32>,
    p: Property,
    code: int,
) -> bool {
    &&& is_scalar_value(code)
    &&& code >= 0x80
    &&& spec_member(props, exclusions, p, code)
}

/// Linear membership scan used for the short exclusion list.
pub fn contains_u32(v: &Vec<u32>, x: u32) -> (r: bool)
    ensures
        r == v@.contains(x),
{
    let mut i: usize = 0;
    while i < v.len()
        invariant
            0 <= i <= v@.len(),
            forall|k: int| 0 <= k < i ==> v@[k] != x,
        decreases v@.len() - i,
    {
        if v[i] == x {
            assert(v@.contains(x));
            return true;
        }
        i = i + 1;
    }
    return false;
}

/// The compatibility exclusion list for the Continue property: U+30FB
/// KATAKANA MIDDLE DOT and U+FF65 HALFWIDTH KATAKANA MIDDLE DOT, which the
/// raw Unicode data includes but legacy-compatible identifiers reject.
pub fn legacy_continue_exclusions() -> (r: Vec<u32>)
    ensures
        r@ == seq![0x30FBu32, 0xFF65u32],
{
    let mut v: Vec<u32> = Vec::new();
    v.push(0x30FB);
    v.push(0xFF65);
    proof {
        assert(v@ =~= seq![0x30FBu32, 0xFF65u32]);
    }
    v
}

/// Patched membership lookup: [`spec_member`] as runtime code.
pub fn member(props: &Properties, exclusions: &Vec<u32>, p: Property, code: u32) -> (r: bool)
    requires
        props.wf(),
    ensures
        r == spec_member(*props, exclusions@, p, code as int),
{
    props.has_code(p, code) && !(p == Property::Continue && contains_u32(exclusions, code))
}

} // verus!
