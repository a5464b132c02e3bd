use vstd::prelude::*;

verus! {

/// The way a number was written down.
#[derive(Clone, Copy, Debug, PartialEq, Eq, Structural)]
pub enum NumberKind {
    /// A non-negative integer.
    PosInt,
    /// A negative integer.
    NegInt,
    /// A number with a fraction or an exponent.
    Float,
}

/// A number of a document, held as the plain values that the rules read.
/// The four fields describe one number: reading a text fills them from the
/// number that was read, and the rules take each field as it stands.
#[derive(Clone, Debug)]
pub struct Num {
    /// The way the number was written down.
    pub kind: NumberKind,
    /// The IEEE 754 binary64 bit pattern of the number's value.
    pub bits: u64,
    /// The binary64 value in the decimal notation used in findings.
    pub shown: String,
    /// The number in JSON notation.
    pub json: String,
}

/// A parsed document: a tree of mappings, sequences and scalars.
#[derive(Debug)]
pub enum Node {
    /// Nothing.
    Null,
    /// A truth value.
    Bool(bool),
    /// A number.
    Number(Num),
    /// A text.
    String(String),
    /// Values in order.
    Sequence(Vec<Node>),
    /// Values under keys, in order. A key is looked up from the front, so
    /// that of two entries with one key the first counts.
    Mapping(Vec<(String, Node)>),
}

/// The bit that holds the sign of a binary64 value.
pub const SIGN_BIT: u64 = 0x8000_0000_0000_0000;

/// The bit pattern of the binary64 value one.
pub const ONE_BITS: u64 = 0x3FF0_0000_0000_0000;

/// The place of a finite binary64 value, given by its bit pattern, among all
/// of them: a value is below another exactly when its rank is, and both zeros
/// have rank 0.
pub open spec fn rank(bits: u64) -> int {
    if bits < SIGN_BIT {
        bits as int
    } else {
        -(bits - SIGN_BIT)
    }
}

/// Computes the rank of a bit pattern.
pub fn rank_of(bits: u64) -> (place: i64)
    ensures
        place == rank(bits),
{
    if bits < SIGN_BIT {
        bits as i64
    } else {
        -((bits - SIGN_BIT) as i64)
    }
}

/// The mathematical model of a [`Num`].
pub struct NumView {
    pub kind: NumberKind,
    pub bits: u64,
    pub shown: Seq<char>,
    pub json: Seq<char>,
}

/// The mathematical model of a [`Node`].
pub enum Doc {
    Null,
    Bool(bool),
    Number(NumView),
    Text(Seq<char>),
    List(Seq<Doc>),
    Table(Seq<(Seq<char>, Doc)>),
}

impl NumView {
    /// Whether two numbers are equal: numbers written in different ways never
    /// are, integers are equal when their notation is, and other numbers when
    /// their values are (so that zero equals negative zero).
    pub open spec fn same(self, other: NumView) -> bool {
        &&& self.kind == other.kind
        &&& if self.kind == NumberKind::Float {
            rank(self.bits) == rank(other.bits)
        } else {
            self.json == other.json
        }
    }

    /// Whether the number lies between zero and one, both included.
    pub open spec fn in_unit_interval(self) -> bool {
        0 <= rank(self.bits) <= rank(ONE_BITS)
    }

    /// Whether the number is below `other`.
    pub open spec fn below(self, other: NumView) -> bool {
        rank(self.bits) < rank(other.bits)
    }
}

impl Num {
    /// Whether two numbers are equal.
    pub fn same(&self, other: &Num) -> (equal: bool)
        ensures
            equal == self@.same(other@),
    {
        if self.kind != other.kind {
            false
        } else if self.kind == NumberKind::Float {
            rank_of(self.bits) == rank_of(other.bits)
        } else {
            self.json == other.json
        }
    }

    /// Whether the number lies between zero and one, both included.
    pub fn in_unit_interval(&self) -> (inside: bool)
        ensures
            inside == self@.in_unit_interval(),
    {
        self.bits <= ONE_BITS || self.bits == SIGN_BIT
    }

    /// The rank of the number's value.
    pub fn rank(&self) -> (place: i64)
        ensures
            place == rank(self.bits),
    {
        rank_of(self.bits)
    }

    /// Whether the number is below `other`.
    pub fn below(&self, other: &Num) -> (less: bool)
        ensures
            less == self@.below(other@),
    {
        self.rank() < other.rank()
    }
}

impl View for Num {
    type V = NumView;

    open spec fn view(&self) -> NumView {
        NumView { kind: self.kind, bits: self.bits, shown: self.shown@, json: self.json@ }
    }
}

impl View for Node {
    type V = Doc;

    open spec fn view(&self) -> Doc
        decreases self, 0nat,
    {
        match self {
            Node::Null => Doc::Null,
            Node::Bool(b) => Doc::Bool(*b),
            Node::Number(n) => Doc::Number(n@),
            Node::String(s) => Doc::Text(s@),
            Node::Sequence(items) => Doc::List(item_docs(items@)),
            Node::Mapping(entries) => Doc::Table(entry_docs(entries@)),
        }
    }
}

/// The models of the items of a sequence, first to last.
pub open spec fn item_docs(items: Seq<Node>) -> Seq<Doc>
    decreases items, 1nat,
{
    if items.len() == 0 {
        Seq::empty()
    } else {
        item_docs(items.drop_last()).push(items.last().view())
    }
}

/// The keys of the entries of a mapping with the models of their values, first
/// to last.
pub open spec fn entry_docs(entries: Seq<(String, Node)>) -> Seq<(Seq<char>, Doc)>
    decreases entries, 1nat,
{
    if entries.len() == 0 {
        Seq::empty()
    } else {
        entry_docs(entries.drop_last()).push((entries.last().0@, entries.last().1.view()))
    }
}

/// The value stored under `key` in a list of entries: that of the first entry
/// with this key.
pub open spec fn lookup(entries: Seq<(Seq<char>, Doc)>, key: Seq<char>) -> Option<Doc>
    decreases entries.len(),
{
    if entries.len() == 0 {
        None
    } else if entries[0].0 == key {
        Some(entries[0].1)
    } else {
        lookup(entries.drop_first(), key)
    }
}

impl Doc {
    /// The member `key` of a mapping; nothing for any other kind of value.
    pub open spec fn get(self, key: Seq<char>) -> Option<Doc> {
        match self {
            Doc::Table(entries) => lookup(entries, key),
            _ => None,
        }
    }

    /// The characters of a string value.
    pub open spec fn as_text(self) -> Option<Seq<char>> {
        match self {
            Doc::Text(s) => Some(s),
            _ => None,
        }
    }

    /// The items of a sequence value.
    pub open spec fn as_list(self) -> Option<Seq<Doc>> {
        match self {
            Doc::List(items) => Some(items),
            _ => None,
        }
    }

    /// The entries of a mapping value.
    pub open spec fn as_table(self) -> Option<Seq<(Seq<char>, Doc)>> {
        match self {
            Doc::Table(entries) => Some(entries),
            _ => None,
        }
    }

    /// The number of a numeric value.
    pub open spec fn as_number(self) -> Option<NumView> {
        match self {
            Doc::Number(n) => Some(n),
            _ => None,
        }
    }
}

/// Deep equality of two values: the same kind of value with equal contents,
/// item by item and entry by entry.
pub open spec fn same_value(a: Doc, b: Doc) -> bool
    decreases a,
{
    match a {
        Doc::Null => b is Null,
        Doc::Bool(x) => b == Doc::Bool(x),
        Doc::Number(x) => b is Number && x.same(b->Number_0),
        Doc::Text(x) => b == Doc::Text(x),
        Doc::List(x) => {
            &&& b is List
            &&& b->List_0.len() == x.len()
            &&& forall|i: int| 0 <= i < x.len() ==> same_value(x[i], #[trigger] b->List_0[i])
        },
        Doc::Table(x) => {
            &&& b is Table
            &&& b->Table_0.len() == x.len()
            &&& forall|i: int|
                0 <= i < x.len() ==> x[i].0 == (#[trigger] b->Table_0[i]).0 && same_value(
                    x[i].1,
                    b->Table_0[i].1,
                )
        },
    }
}

/// Deep equality of two values that may be absent: both absent, or both there
/// and equal.
pub open spec fn same_option(a: Option<Doc>, b: Option<Doc>) -> bool {
    match a {
        Some(x) => b is Some && same_value(x, b->0),
        None => b is None,
    }
}

/// Every value equals itself.
pub proof fn lemma_same_value_reflexive(a: Doc)
    ensures
        same_value(a, a),
    decreases a,
{
    match a {
        Doc::List(x) => {
            assert forall|i: int| 0 <= i < x.len() implies same_value(x[i], x[i]) by {
                lemma_same_value_reflexive(x[i]);
            }
        },
        Doc::Table(x) => {
            assert forall|i: int| 0 <= i < x.len() implies same_value(x[i].1, x[i].1) by {
                lemma_same_value_reflexive(x[i].1);
            }
        },
        _ => {},
    }
}

/// Skipping entries whose key differs does not change what a lookup finds.
pub proof fn lemma_lookup_skip(entries: Seq<(Seq<char>, Doc)>, key: Seq<char>, n: int)
    requires
        0 <= n <= entries.len(),
        forall|j: int| 0 <= j < n ==> entries[j].0 != key,
    ensures
        lookup(entries, key) == lookup(entries.subrange(n, entries.len() as int), key),
    decreases n,
{
    if n == 0 {
        assert(entries.subrange(0, entries.len() as int) =~= entries);
    } else {
        let rest = entries.drop_first();
        assert forall|j: int| 0 <= j < n - 1 implies rest[j].0 != key by {
            assert(rest[j] == entries[j + 1]);
        }
        lemma_lookup_skip(rest, key, n - 1);
        assert(rest.subrange(n - 1, rest.len() as int) =~= entries.subrange(
            n,
            entries.len() as int,
        ));
    }
}

impl Node {
    /// The member `key` of a mapping, as `serde_json`'s `get` gives it for a
    /// string index: nothing when the value is no mapping or has no such key.
    pub fn get(&self, key: &str) -> (found: Option<&Node>)
        ensures
            match found {
                Some(v) => self@.get(key@) == Some(v@),
                None => self@.get(key@) is None,
            },
    {
        match self {
            Node::Mapping(entries) => {
                let wanted = key.to_owned();
                let ghost table = entry_views(entries@);
                proof {
                    lemma_mapping_view(*self);
                }
                let mut i: usize = 0;
                while i < entries.len()
                    invariant
                        i <= entries.len(),
                        wanted@ == key@,
                        self@ == Doc::Table(table),
                        table.len() == entries.len(),
                        forall|j: int|
                            0 <= j < entries.len() ==> table[j] == (
                                #[trigger] entries[j].0@,
                                entries[j].1@,
                            ),
                        forall|j: int| 0 <= j < i ==> table[j].0 != key@,
                    decreases entries.len() - i,
                {
                    if entries[i].0 == wanted {
                        proof {
                            lemma_lookup_skip(table, key@, i as int);
                        }
                        return Some(&entries[i].1);
                    }
                    i += 1;
                }
                proof {
                    lemma_lookup_skip(table, key@, i as int);
                }
                None
            },
            _ => None,
        }
    }

    /// A copy of the value and of all that it holds.
    pub fn duplicate(&self) -> (copy: Node)
        ensures
            copy@ == self@,
        decreases self,
    {
        match self {
            Node::Null => Node::Null,
            Node::Bool(b) => Node::Bool(*b),
            Node::Number(n) => Node::Number(
                Num {
                    kind: n.kind,
                    bits: n.bits,
                    shown: n.shown.clone(),
                    json: n.json.clone(),
                },
            ),
            Node::String(s) => Node::String(s.clone()),
            Node::Sequence(items) => {
                let mut copies: Vec<Node> = Vec::new();
                let mut i: usize = 0;
                while i < items.len()
                    invariant
                        i <= items.len(),
                        self is Sequence && self->Sequence_0 == *items,
                        copies.len() == i,
                        forall|j: int| 0 <= j < i ==> (#[trigger] copies[j])@ == items[j]@,
                    decreases items.len() - i,
                {
                    assert(decreases_to!(items => items[i as int]));
                    let item = items[i].duplicate();
                    copies.push(item);
                    i += 1;
                }
                let copy = Node::Sequence(copies);
                proof {
                    lemma_sequence_view(*self);
                    lemma_sequence_view(copy);
                    assert(views(copies@) =~= views(items@));
                }
                copy
            },
            Node::Mapping(entries) => {
                let mut copies: Vec<(String, Node)> = Vec::new();
                let mut i: usize = 0;
                while i < entries.len()
                    invariant
                        i <= entries.len(),
                        self is Mapping && self->Mapping_0 == *entries,
                        copies.len() == i,
                        forall|j: int|
                            0 <= j < i ==> (#[trigger] copies[j]).0@ == entries[j].0@
                                && copies[j].1@ == entries[j].1@,
                    decreases entries.len() - i,
                {
                    assert(decreases_to!(entries => entries[i as int]));
                    let value = entries[i].1.duplicate();
                    copies.push((entries[i].0.clone(), value));
                    i += 1;
                }
                let copy = Node::Mapping(copies);
                proof {
                    lemma_mapping_view(*self);
                    lemma_mapping_view(copy);
                    assert(entry_views(copies@) =~= entry_views(entries@));
                }
                copy
            },
        }
    }

    /// Whether two values are deeply equal.
    pub fn same(&self, other: &Node) -> (equal: bool)
        ensures
            equal == same_value(self@, other@),
        decreases self,
    {
        match self {
            Node::Null => matches!(other, Node::Null),
            Node::Bool(x) => match other {
                Node::Bool(y) => *x == *y,
                _ => false,
            },
            Node::Number(x) => match other {
                Node::Number(y) => x.same(y),
                _ => false,
            },
            Node::String(x) => match other {
                Node::String(y) => *x == *y,
                _ => false,
            },
            Node::Sequence(x) => match other {
                Node::Sequence(y) => {
                    proof {
                        lemma_sequence_view(*self);
                        lemma_sequence_view(*other);
                    }
                    if x.len() != y.len() {
                        return false;
                    }
                    let mut i: usize = 0;
                    while i < x.len()
                        invariant
                            i <= x.len(),
                            x.len() == y.len(),
                            self == Node::Sequence(*x),
                            self@ == Doc::List(views(x@)),
                            other@ == Doc::List(views(y@)),
                            forall|j: int| 0 <= j < i ==> same_value(x[j]@, #[trigger] y[j]@),
                        decreases x.len() - i,
                    {
                        assert(decreases_to!(x => x[i as int]));
                        if !x[i].same(&y[i]) {
                            assert(!same_value(views(x@)[i as int], views(y@)[i as int]));
                            return false;
                        }
                        i += 1;
                    }
                    assert forall|j: int| 0 <= j < x.len() implies same_value(
                        views(x@)[j],
                        #[trigger] views(y@)[j],
                    ) by {
                        assert(same_value(x[j]@, y[j]@));
                    }
                    true
                },
                _ => false,
            },
            Node::Mapping(x) => match other {
                Node::Mapping(y) => {
                    proof {
                        lemma_mapping_view(*self);
                        lemma_mapping_view(*other);
                    }
                    if x.len() != y.len() {
                        return false;
                    }
                    let mut i: usize = 0;
                    while i < x.len()
                        invariant
                            i <= x.len(),
                            x.len() == y.len(),
                            self == Node::Mapping(*x),
                            self@ == Doc::Table(entry_views(x@)),
                            other@ == Doc::Table(entry_views(y@)),
                            forall|j: int|
                                0 <= j < i ==> x[j].0@ == (#[trigger] y[j]).0@ && same_value(
                                    x[j].1@,
                                    y[j].1@,
                                ),
                        decreases x.len() - i,
                    {
                        assert(decreases_to!(x => x[i as int]));
                        if x[i].0 != y[i].0 || !x[i].1.same(&y[i].1) {
                            assert(entry_views(x@)[i as int] == (x[i as int].0@, x[i as int].1@));
                            assert(entry_views(y@)[i as int] == (y[i as int].0@, y[i as int].1@));
                            return false;
                        }
                        i += 1;
                    }
                    assert forall|j: int| 0 <= j < x.len() implies entry_views(x@)[j].0 == (
                    #[trigger] entry_views(y@)[j]).0 && same_value(
                        entry_views(x@)[j].1,
                        entry_views(y@)[j].1,
                    ) by {
                        assert(x[j].0@ == y[j].0@ && same_value(x[j].1@, y[j].1@));
                    }
                    true
                },
                _ => false,
            },
        }
    }

    /// The characters of a string value.
    pub fn as_str(&self) -> (text: Option<&str>)
        ensures
            match text {
                Some(s) => self@.as_text() == Some(s@),
                None => self@.as_text() is None,
            },
    {
        match self {
            Node::String(s) => Some(s.as_str()),
            _ => None,
        }
    }

    /// The items of a sequence value.
    pub fn as_array(&self) -> (items: Option<&Vec<Node>>)
        ensures
            match items {
                Some(v) => self@.as_list() == Some(views(v@)),
                None => self@.as_list() is None,
            },
    {
        match self {
            Node::Sequence(items) => {
                proof {
                    lemma_sequence_view(*self);
                }
                Some(items)
            },
            _ => None,
        }
    }

    /// The entries of a mapping value.
    pub fn as_object(&self) -> (entries: Option<&Vec<(String, Node)>>)
        ensures
            match entries {
                Some(v) => self@.as_table() == Some(entry_views(v@)),
                None => self@.as_table() is None,
            },
    {
        match self {
            Node::Mapping(entries) => {
                proof {
                    lemma_mapping_view(*self);
                }
                Some(entries)
            },
            _ => None,
        }
    }

    /// The number of a numeric value.
    pub fn as_number(&self) -> (number: Option<&Num>)
        ensures
            match number {
                Some(n) => self@.as_number() == Some(n@),
                None => self@.as_number() is None,
            },
    {
        match self {
            Node::Number(n) => Some(n),
            _ => None,
        }
    }
}

/// The models of a run of values, in order.
pub open spec fn views(items: Seq<Node>) -> Seq<Doc> {
    Seq::new(items.len(), |i: int| items[i]@)
}

/// The models of a run of mapping entries, in order.
pub open spec fn entry_views(entries: Seq<(String, Node)>) -> Seq<(Seq<char>, Doc)> {
    Seq::new(entries.len(), |i: int| (entries[i].0@, entries[i].1@))
}

/// The model of a sequence has one item for each item, in the same place.
pub proof fn lemma_item_docs(items: Seq<Node>)
    ensures
        item_docs(items) == views(items),
    decreases items.len(),
{
    if items.len() > 0 {
        let rest = items.drop_last();
        lemma_item_docs(rest);
        assert(item_docs(items) == item_docs(rest).push(items.last()@));
        assert forall|i: int| 0 <= i < items.len() implies item_docs(items)[i] == views(
            items,
        )[i] by {
            if i < rest.len() {
                assert(rest[i] == items[i]);
            }
        }
    }
    assert(item_docs(items) =~= views(items));
}

/// The model of a mapping has one entry for each entry, in the same place.
pub proof fn lemma_entry_docs(entries: Seq<(String, Node)>)
    ensures
        entry_docs(entries) == entry_views(entries),
    decreases entries.len(),
{
    if entries.len() > 0 {
        let rest = entries.drop_last();
        lemma_entry_docs(rest);
        assert(entry_docs(entries) == entry_docs(rest).push(
            (entries.last().0@, entries.last().1@),
        ));
        assert forall|i: int| 0 <= i < entries.len() implies entry_docs(entries)[i]
            == entry_views(entries)[i] by {
            if i < rest.len() {
                assert(rest[i] == entries[i]);
            }
        }
    }
    assert(entry_docs(entries) =~= entry_views(entries));
}

/// A sequence value is modelled by the models of its items.
pub proof fn lemma_sequence_view(v: Node)
    requires
        v is Sequence,
    ensures
        v@ == Doc::List(views(v->Sequence_0@)),
{
    lemma_item_docs(v->Sequence_0@);
}

/// A mapping value is modelled by its keys and the models of their values.
pub proof fn lemma_mapping_view(v: Node)
    requires
        v is Mapping,
    ensures
        v@ == Doc::Table(entry_views(v->Mapping_0@)),
{
    lemma_entry_docs(v->Mapping_0@);
}

} // verus!
