//! The element model: points (nodes), polylines (ways) and relations, each
//! carrying a set of string tags.

use vstd::prelude::*;

verus! {

/// A tag set: string keys, each with one string value.
///
/// Keys are kept unique; inserting an existing key replaces its value.
#[derive(Clone, Debug)]
pub struct Tags {
    keys: Vec<String>,
    values: Vec<String>,
}

/// The map built from parallel key and value sequences, later entries
/// overriding earlier ones.
pub open spec fn entries_map(keys: Seq<Seq<char>>, values: Seq<Seq<char>>) -> Map<Seq<char>, Seq<char>>
    decreases keys.len(),
{
    if keys.len() == 0 || values.len() == 0 {
        Map::empty()
    } else {
        entries_map(keys.drop_last(), values.drop_last()).insert(keys.last(), values.last())
    }
}

proof fn lemma_entries_map_dom(keys: Seq<Seq<char>>, values: Seq<Seq<char>>, k: Seq<char>)
    requires
        keys.len() == values.len(),
    ensures
        entries_map(keys, values).dom().contains(k) <==> keys.contains(k),
    decreases keys.len(),
{
    if keys.len() > 0 {
        lemma_entries_map_dom(keys.drop_last(), values.drop_last(), k);
        if keys.drop_last().contains(k) {
            let i = choose|i: int| 0 <= i < keys.drop_last().len() && keys.drop_last()[i] == k;
            assert(keys[i] == k);
        }
        if keys.contains(k) && k != keys.last() {
            let i = choose|i: int| 0 <= i < keys.len() && keys[i] == k;
            assert(keys.drop_last()[i] == k);
        }
    }
}

proof fn lemma_entries_map_value(keys: Seq<Seq<char>>, values: Seq<Seq<char>>, i: int)
    requires
        keys.len() == values.len(),
        0 <= i < keys.len(),
        forall|a: int, b: int| 0 <= a < b < keys.len() ==> keys[a] != keys[b],
    ensures
        entries_map(keys, values).dom().contains(keys[i]),
        entries_map(keys, values)[keys[i]] == values[i],
    decreases keys.len(),
{
    if i < keys.len() - 1 {
        lemma_entries_map_value(keys.drop_last(), values.drop_last(), i);
        assert(keys[i] != keys.last());
    }
}

proof fn lemma_entries_map_len(keys: Seq<Seq<char>>, values: Seq<Seq<char>>)
    requires
        keys.len() == values.len(),
        forall|a: int, b: int| 0 <= a < b < keys.len() ==> keys[a] != keys[b],
    ensures
        entries_map(keys, values).dom().finite(),
        entries_map(keys, values).dom().len() == keys.len(),
    decreases keys.len(),
{
    if keys.len() > 0 {
        let ks = keys.drop_last();
        lemma_entries_map_len(ks, values.drop_last());
        lemma_entries_map_dom(ks, values.drop_last(), keys.last());
        if ks.contains(keys.last()) {
            let j = choose|j: int| 0 <= j < ks.len() && ks[j] == keys.last();
            assert(keys[j] == keys[keys.len() - 1]);
        }
    }
}

/// The map built by inserting `pairs` in order.
pub open spec fn pairs_map(pairs: Seq<(Seq<char>, Seq<char>)>) -> Map<Seq<char>, Seq<char>>
    decreases pairs.len(),
{
    if pairs.len() == 0 {
        Map::empty()
    } else {
        pairs_map(pairs.drop_last()).insert(pairs.last().0, pairs.last().1)
    }
}

impl View for Tags {
    type V = Map<Seq<char>, Seq<char>>;

    open spec fn view(&self) -> Map<Seq<char>, Seq<char>> {
        entries_map(self.key_seq(), self.value_seq())
    }
}

impl Tags {
    /// The keys in their stored order.
    pub closed spec fn key_seq(&self) -> Seq<Seq<char>> {
        self.keys@.map_values(|s: String| s@)
    }

    /// The values in their stored order.
    pub closed spec fn value_seq(&self) -> Seq<Seq<char>> {
        self.values@.map_values(|s: String| s@)
    }

    /// Keys and values pair up, and no key occurs twice.
    pub closed spec fn wf(&self) -> bool {
        &&& self.keys.len() == self.values.len()
        &&& forall|a: int, b: int|
            0 <= a < b < self.keys.len() ==> self.keys@[a]@ != self.keys@[b]@
    }

    /// The keys of the map are exactly the stored keys, one per tag.
    pub proof fn lemma_keys(&self)
        requires
            self.wf(),
        ensures
            self.key_seq().len() == self@.len(),
            self@.dom().finite(),
            forall|k: Seq<char>| #[trigger] self@.dom().contains(k) <==> self.key_seq().contains(k),
    {
        lemma_entries_map_len(self.key_seq(), self.value_seq());
        assert forall|k: Seq<char>| #[trigger] self@.dom().contains(k) <==> self.key_seq().contains(k) by {
            lemma_entries_map_dom(self.key_seq(), self.value_seq(), k);
        }
    }

    /// An empty tag set.
    pub fn new() -> (r: Tags)
        ensures
            r.wf(),
            r@ == Map::<Seq<char>, Seq<char>>::empty(),
    {
        let r = Tags { keys: Vec::new(), values: Vec::new() };
        assert(r.key_seq().len() == 0);
        r
    }

    /// The number of tags.
    pub fn len(&self) -> (n: usize)
        requires
            self.wf(),
        ensures
            n == self@.len(),
    {
        proof {
            lemma_entries_map_len(self.key_seq(), self.value_seq());
        }
        self.keys.len()
    }

    /// True when there are no tags.
    pub fn is_empty(&self) -> (b: bool)
        requires
            self.wf(),
        ensures
            b <==> self@.len() == 0,
            b <==> self@.dom() == Set::<Seq<char>>::empty(),
    {
        proof {
            lemma_entries_map_len(self.key_seq(), self.value_seq());
        }
        self.keys.len() == 0
    }

    /// The position of `key` among the stored keys, if present.
    fn position(&self, key: &str) -> (r: Option<usize>)
        requires
            self.wf(),
        ensures
            match r {
                Some(i) => i < self.keys.len() && self.keys@[i as int]@ == key@,
                None => !self@.dom().contains(key@),
            },
    {
        let k = key.to_owned();
        let mut i: usize = 0;
        while i < self.keys.len()
            invariant
                self.wf(),
                k@ == key@,
                i <= self.keys.len(),
                forall|j: int| 0 <= j < i ==> self.keys@[j]@ != key@,
            decreases self.keys.len() - i,
        {
            if self.keys[i] == k {
                return Some(i);
            }
            i = i + 1;
        }
        proof {
            lemma_entries_map_dom(self.key_seq(), self.value_seq(), key@);
            if self.key_seq().contains(key@) {
                let j = choose|j: int| 0 <= j < self.key_seq().len() && self.key_seq()[j] == key@;
                assert(self.keys@[j]@ == key@);
            }
        }
        None
    }

    /// True when `key` is one of the tag keys.
    pub fn contains_key(&self, key: &str) -> (b: bool)
        requires
            self.wf(),
        ensures
            b <==> self@.dom().contains(key@),
    {
        match self.position(key) {
            Some(i) => {
                proof {
                    lemma_entries_map_value(self.key_seq(), self.value_seq(), i as int);
                }
                true
            },
            None => false,
        }
    }

    /// The value stored under `key`, if any.
    pub fn get(&self, key: &str) -> (r: Option<&String>)
        requires
            self.wf(),
        ensures
            match r {
                Some(v) => self@.dom().contains(key@) && self@[key@] == v@,
                None => !self@.dom().contains(key@),
            },
    {
        match self.position(key) {
            Some(i) => {
                proof {
                    lemma_entries_map_value(self.key_seq(), self.value_seq(), i as int);
                }
                Some(&self.values[i])
            },
            None => None,
        }
    }

    /// Sets `key` to `value`, replacing any value it had.
    pub fn insert(&mut self, key: String, value: String)
        requires
            old(self).wf(),
        ensures
            final(self).wf(),
            final(self)@ == old(self)@.insert(key@, value@),
    {
        match self.position(key.as_str()) {
            Some(i) => {
                let ghost old_keys = self.key_seq();
                let ghost old_values = self.value_seq();
                self.values.set(i, value);
                proof {
                    assert(self.key_seq() == old_keys);
                    assert forall|k: Seq<char>|
                        #![auto]
                        self@.dom().contains(k) <==> old(self)@.insert(key@, value@).dom().contains(k) by {
                        lemma_entries_map_dom(self.key_seq(), self.value_seq(), k);
                        lemma_entries_map_dom(old_keys, old_values, k);
                        lemma_entries_map_dom(old_keys, old_values, key@);
                        lemma_entries_map_value(old_keys, old_values, i as int);
                    }
                    assert forall|k: Seq<char>|
                        #![auto]
                        self@.dom().contains(k) implies self@[k] == old(self)@.insert(key@, value@)[k] by {
                        lemma_entries_map_dom(self.key_seq(), self.value_seq(), k);
                        let j = choose|j: int| 0 <= j < self.key_seq().len() && self.key_seq()[j] == k;
                        lemma_entries_map_value(self.key_seq(), self.value_seq(), j);
                        if k != key@ {
                            lemma_entries_map_value(old_keys, old_values, j);
                        } else {
                            assert(j == i);
                        }
                    }
                    assert(self@ =~= old(self)@.insert(key@, value@));
                }
            },
            None => {
                let ghost old_keys = self.key_seq();
                let ghost old_values = self.value_seq();
                self.keys.push(key);
                self.values.push(value);
                proof {
                    assert(self.key_seq().drop_last() == old_keys);
                    assert(self.value_seq().drop_last() == old_values);
                    lemma_entries_map_dom(old_keys, old_values, key@);
                    assert forall|a: int, b: int|
                        0 <= a < b < self.keys.len() implies self.keys@[a]@ != self.keys@[b]@ by {
                        if b == self.keys.len() - 1 {
                            assert(old_keys[a] == self.keys@[a]@);
                        }
                    }
                }
            },
        }
    }

    /// A copy of this tag set.
    pub fn duplicate(&self) -> (r: Tags)
        requires
            self.wf(),
        ensures
            r.wf(),
            r@ == self@,
            r.key_seq() == self.key_seq(),
    {
        let r = Tags { keys: self.keys.clone(), values: self.values.clone() };
        assert(r.keys@ =~= self.keys@);
        assert(r.values@ =~= self.values@);
        r
    }

    /// The tag set holding `pairs`, a later pair replacing an earlier one
    /// with the same key.
    pub fn from_pairs(pairs: &[(String, String)]) -> (r: Tags)
        ensures
            r.wf(),
            r@ == pairs_map(pairs@.map_values(|p: (String, String)| (p.0@, p.1@))),
    {
        let ghost ps = pairs@.map_values(|p: (String, String)| (p.0@, p.1@));
        let mut r = Tags::new();
        let mut i: usize = 0;
        while i < pairs.len()
            invariant
                ps == pairs@.map_values(|p: (String, String)| (p.0@, p.1@)),
                i <= pairs@.len(),
                r.wf(),
                r@ == pairs_map(ps.subrange(0, i as int)),
            decreases pairs@.len() - i,
        {
            let k = pairs[i].0.clone();
            let v = pairs[i].1.clone();
            assert(ps[i as int] == (k@, v@));
            assert(ps.subrange(0, i + 1).drop_last() =~= ps.subrange(0, i as int));
            r.insert(k, v);
            i = i + 1;
        }
        assert(ps.subrange(0, pairs@.len() as int) =~= ps);
        r
    }

    /// The key at position `i` of the stored order.
    pub fn key_at(&self, i: usize) -> (k: &String)
        requires
            self.wf(),
            i < self@.len(),
        ensures
            k@ == self.key_seq()[i as int],
            self@.dom().contains(k@),
    {
        proof {
            lemma_entries_map_len(self.key_seq(), self.value_seq());
            lemma_entries_map_value(self.key_seq(), self.value_seq(), i as int);
        }
        &self.keys[i]
    }

    /// The value at position `i` of the stored order.
    pub fn value_at(&self, i: usize) -> (v: &String)
        requires
            self.wf(),
            i < self@.len(),
        ensures
            self@[self.key_seq()[i as int]] == v@,
    {
        proof {
            lemma_entries_map_len(self.key_seq(), self.value_seq());
            lemma_entries_map_value(self.key_seq(), self.value_seq(), i as int);
        }
        &self.values[i]
    }
}


/// The kind of element a relation member refers to.
#[derive(Clone, Copy, Debug, PartialEq, Eq, Structural)]
pub enum MemberType {
    Node,
    Way,
    Relation,
}

/// A point with its position in units of 1e-7 degree.
#[derive(Clone, Debug)]
pub struct OsmNode {
    pub id: i64,
    pub lat: i32,
    pub lon: i32,
    pub tags: Tags,
}

/// A polyline: the ordered ids of the points it passes through.
#[derive(Clone, Debug)]
pub struct OsmWay {
    pub id: i64,
    pub node_refs: Vec<i64>,
    pub tags: Tags,
}

/// One member of a relation.
#[derive(Clone, Debug)]
pub struct OsmRelationMember {
    pub member_type: MemberType,
    pub member_id: i64,
    pub role: String,
}

/// A relation: an ordered list of members of any kind.
#[derive(Clone, Debug)]
pub struct OsmRelation {
    pub id: i64,
    pub members: Vec<OsmRelationMember>,
    pub tags: Tags,
}

/// Any of the three element kinds.
#[derive(Clone, Debug)]
pub enum OsmElement {
    Node(OsmNode),
    Way(OsmWay),
    Relation(OsmRelation),
}

impl OsmRelationMember {
    /// A member as the decoder reports it; a role that cannot be read is empty.
    pub fn from_parts(member_type: MemberType, member_id: i64, role: Option<String>) -> (r: OsmRelationMember)
        ensures
            r.member_type == member_type,
            r.member_id == member_id,
            r.role@ == match role {
                Some(s) => s@,
                None => Seq::<char>::empty(),
            },
    {
        let role = match role {
            Some(s) => s,
            None => String::new(),
        };
        OsmRelationMember { member_type, member_id, role }
    }
}

impl OsmElement {
    /// The tag set of the element, whatever its kind.
    pub open spec fn spec_tags(&self) -> Tags {
        match self {
            OsmElement::Node(n) => n.tags,
            OsmElement::Way(w) => w.tags,
            OsmElement::Relation(r) => r.tags,
        }
    }

    /// The identifier of the element, whatever its kind.
    pub open spec fn spec_id(&self) -> i64 {
        match self {
            OsmElement::Node(n) => n.id,
            OsmElement::Way(w) => w.id,
            OsmElement::Relation(r) => r.id,
        }
    }

    /// The element's tag set is well formed.
    pub open spec fn wf(&self) -> bool {
        self.spec_tags().wf()
    }

    pub fn id(&self) -> (r: i64)
        ensures
            r == self.spec_id(),
    {
        match self {
            OsmElement::Node(node) => node.id,
            OsmElement::Way(way) => way.id,
            OsmElement::Relation(relation) => relation.id,
        }
    }

    pub fn tags(&self) -> (r: &Tags)
        ensures
            *r == self.spec_tags(),
    {
        match self {
            OsmElement::Node(node) => &node.tags,
            OsmElement::Way(way) => &way.tags,
            OsmElement::Relation(relation) => &relation.tags,
        }
    }

    pub fn has_tag(&self, key: &str) -> (b: bool)
        requires
            self.wf(),
        ensures
            b <==> self.spec_tags()@.dom().contains(key@),
    {
        self.tags().contains_key(key)
    }

    pub fn get_tag(&self, key: &str) -> (r: Option<&String>)
        requires
            self.wf(),
        ensures
            match r {
                Some(v) => self.spec_tags()@.dom().contains(key@) && self.spec_tags()@[key@] == v@,
                None => !self.spec_tags()@.dom().contains(key@),
            },
    {
        self.tags().get(key)
    }
}

/// A way is closed when it has at least one point and ends where it starts.
pub open spec fn spec_is_closed_way(refs: Seq<i64>) -> bool {
    refs.len() > 0 && refs[0] == refs.last()
}

/// The tag keys whose presence marks a closed way as an area.
pub open spec fn area_keys() -> Seq<Seq<char>> {
    seq!["area"@, "building"@, "landuse"@, "leisure"@, "natural"@, "amenity"@]
}

/// A closed way is an area when it has one of the area keys, or is a
/// pedestrian or service highway.
pub open spec fn spec_is_area(way: OsmWay) -> bool {
    &&& spec_is_closed_way(way.node_refs@)
    &&& {
        ||| exists|i: int| 0 <= i < area_keys().len() && #[trigger] way.tags@.dom().contains(area_keys()[i])
        ||| (way.tags@.dom().contains("highway"@) && (way.tags@["highway"@] == "pedestrian"@
            || way.tags@["highway"@] == "service"@))
    }
}

pub fn is_closed_way(way: &OsmWay) -> (b: bool)
    ensures
        b == spec_is_closed_way(way.node_refs@),
{
    let n = way.node_refs.len();
    n > 0 && way.node_refs[0] == way.node_refs[n - 1]
}

pub fn is_area(way: &OsmWay) -> (b: bool)
    requires
        way.tags.wf(),
    ensures
        b == spec_is_area(*way),
{
    if !is_closed_way(way) {
        return false;
    }
    let keys: [&str; 6] = ["area", "building", "landuse", "leisure", "natural", "amenity"];
    let mut i: usize = 0;
    while i < 6
        invariant
            0 <= i <= 6,
            way.tags.wf(),
            spec_is_closed_way(way.node_refs@),
            keys@.map_values(|k: &str| k@) == area_keys(),
            forall|j: int| 0 <= j < i ==> !way.tags@.dom().contains(#[trigger] area_keys()[j]),
        decreases 6 - i,
    {
        if way.tags.contains_key(keys[i]) {
            assert(keys@.map_values(|k: &str| k@)[i as int] == keys@[i as int]@);
            assert(way.tags@.dom().contains(area_keys()[i as int]));
            assert(area_keys().len() == 6);
            return true;
        }
        assert(keys@.map_values(|k: &str| k@)[i as int] == keys@[i as int]@);
        i = i + 1;
    }
    assert(area_keys().len() == 6);
    match way.tags.get("highway") {
        Some(v) => {
            let pedestrian = "pedestrian".to_owned();
            let service = "service".to_owned();
            *v == pedestrian || *v == service
        },
        None => false,
    }
}

} // verus!
