use vstd::prelude::*;
use crate::numeric::{
    decimal_le, dec_le, parse_decimal, parse_u32, spec_parse_decimal, spec_parse_u32, Decimal,
};

verus! {

/// A named bit of a bitmask parameter; `code` is the bit position.
pub struct BitFlag {
    pub code: u32,
    pub name: String,
}

/// One acceptable code of an enumerated parameter.
pub struct Value {
    pub code: u32,
    pub name: String,
}

/// The value space of a parameter.
pub enum FieldType {
    Range { min: Decimal, max: Decimal, increment: Option<Decimal>, units: Option<String> },
    Bitmask(Vec<BitFlag>),
    Values(Vec<Value>),
    Unconstrained,
}

/// Descriptor of one parameter of the catalog.
pub struct Parameter {
    pub human_name: String,
    pub documentation: String,
    pub user: String,
    pub field_type: FieldType,
}

pub open spec fn opt_text(o: Option<String>) -> Option<Seq<char>> {
    match o {
        Some(s) => Some(s@),
        None => None,
    }
}

/// Mathematical form of a field type: codes with their labels as text.
pub enum FieldModel {
    Range { min: Decimal, max: Decimal, increment: Option<Decimal>, units: Option<Seq<char>> },
    Bitmask(Seq<(u32, Seq<char>)>),
    Values(Seq<(u32, Seq<char>)>),
    Unconstrained,
}

pub struct ParamModel {
    pub human_name: Seq<char>,
    pub documentation: Seq<char>,
    pub user: Seq<char>,
    pub field: FieldModel,
}

impl View for BitFlag {
    type V = (u32, Seq<char>);

    open spec fn view(&self) -> (u32, Seq<char>) {
        (self.code, self.name@)
    }
}

impl View for Value {
    type V = (u32, Seq<char>);

    open spec fn view(&self) -> (u32, Seq<char>) {
        (self.code, self.name@)
    }
}

pub open spec fn flags_view(v: Seq<BitFlag>) -> Seq<(u32, Seq<char>)> {
    v.map_values(|f: BitFlag| f@)
}

pub open spec fn values_view(v: Seq<Value>) -> Seq<(u32, Seq<char>)> {
    v.map_values(|x: Value| x@)
}

impl View for FieldType {
    type V = FieldModel;

    open spec fn view(&self) -> FieldModel {
        match self {
            FieldType::Range { min, max, increment, units } => FieldModel::Range {
                min: *min,
                max: *max,
                increment: *increment,
                units: opt_text(*units),
            },
            FieldType::Bitmask(f) => FieldModel::Bitmask(flags_view(f@)),
            FieldType::Values(v) => FieldModel::Values(values_view(v@)),
            FieldType::Unconstrained => FieldModel::Unconstrained,
        }
    }
}

impl View for Parameter {
    type V = ParamModel;

    open spec fn view(&self) -> ParamModel {
        ParamModel {
            human_name: self.human_name@,
            documentation: self.documentation@,
            user: self.user@,
            field: self.field_type@,
        }
    }
}

/// Bounds of a range are numbers that a [`Decimal`] can compare.
pub open spec fn field_wf(f: FieldModel) -> bool {
    match f {
        FieldModel::Range { min, max, increment, .. } => min.wf() && max.wf() && (increment matches Some(i) ==> i.wf()),
        _ => true,
    }
}

pub open spec fn pow2(n: nat) -> nat
    decreases n,
{
    if n == 0 {
        1
    } else {
        2 * pow2((n - 1) as nat)
    }
}

/// Highest bit position among the flags, 0 when there is none.
pub open spec fn max_code(s: Seq<(u32, Seq<char>)>) -> nat
    decreases s.len(),
{
    if s.len() == 0 {
        0
    } else {
        let m = max_code(s.drop_last());
        if s.last().0 as nat > m {
            s.last().0 as nat
        } else {
            m
        }
    }
}

pub open spec fn has_code(s: Seq<(u32, Seq<char>)>, c: u32) -> bool {
    exists|i: int| 0 <= i < s.len() && (#[trigger] s[i]).0 == c
}

/// Whether text `v` is an acceptable value in field type `f`. A bitmask
/// admits any integer up to `2^b` where `b` is its highest bit position
/// (not `2^(b+1) - 1`, which a full mask of bits `0..=b` would need; the
/// narrower bound is deliberate and kept for compatibility).
pub open spec fn accepts(f: FieldModel, v: Seq<char>) -> bool {
    match f {
        FieldModel::Range { min, max, .. } => match spec_parse_decimal(v) {
            Some(d) => dec_le(min, d) && dec_le(d, max),
            None => false,
        },
        FieldModel::Bitmask(flags) => match spec_parse_u32(v) {
            Some(n) => n as nat <= pow2(max_code(flags)),
            None => false,
        },
        FieldModel::Values(values) => match spec_parse_u32(v) {
            Some(n) => has_code(values, n),
            None => false,
        },
        FieldModel::Unconstrained => true,
    }
}

fn highest_bit(flags: &Vec<BitFlag>) -> (r: u32)
    ensures
        r as nat == max_code(flags_view(flags@)),
{
    let mut m: u32 = 0;
    let mut i: usize = 0;
    while i < flags.len()
        invariant
            i <= flags.len(),
            m as nat == max_code(flags_view(flags@.take(i as int))),
        decreases flags.len() - i,
    {
        assert(flags_view(flags@.take(i + 1)).drop_last() == flags_view(flags@.take(i as int)));
        if flags[i].code > m {
            m = flags[i].code;
        }
        i = i + 1;
    }
    assert(flags@.take(flags.len() as int) == flags@);
    m
}

proof fn lemma_pow2_large(n: nat)
    requires
        n >= 32,
    ensures
        pow2(n) > u32::MAX,
    decreases n,
{
    if n == 32 {
        reveal_with_fuel(pow2, 33);
    } else {
        lemma_pow2_large((n - 1) as nat);
    }
}

fn pow2_exec(n: u32) -> (r: u64)
    requires
        n < 32,
    ensures
        r as nat == pow2(n as nat),
        r <= 0x8000_0000,
{
    let mut r: u64 = 1;
    let mut i: u32 = 0;
    while i < n
        invariant
            i <= n < 32,
            r as nat == pow2(i as nat),
            r <= 0x8000_0000,
            i < 32 ==> r <= pow2(i as nat),
        decreases n - i,
    {
        proof {
            lemma_pow2_bound((i + 1) as nat);
        }
        r = r * 2;
        i = i + 1;
    }
    proof {
        lemma_pow2_bound(n as nat);
    }
    r
}

proof fn lemma_pow2_bound(n: nat)
    requires
        n < 32,
    ensures
        pow2(n) <= 0x8000_0000,
    decreases n,
{
    if n > 0 {
        lemma_pow2_bound((n - 1) as nat);
        if n == 31 {
            reveal_with_fuel(pow2, 32);
        } else {
            lemma_pow2_bound_below(n);
        }
    }
}

proof fn lemma_pow2_bound_below(n: nat)
    requires
        n < 31,
    ensures
        2 * pow2(n) <= 0x8000_0000,
    decreases 31 - n,
{
    if n < 30 {
        lemma_pow2_bound_below(n + 1);
    } else {
        reveal_with_fuel(pow2, 32);
    }
}

fn has_value_code(values: &Vec<Value>, c: u32) -> (r: bool)
    ensures
        r == has_code(values_view(values@), c),
{
    let mut i: usize = 0;
    while i < values.len()
        invariant
            i <= values.len(),
            forall|j: int| 0 <= j < i ==> values@[j].code != c,
        decreases values.len() - i,
    {
        if values[i].code == c {
            assert(values_view(values@)[i as int].0 == c);
            return true;
        }
        i = i + 1;
    }
    assert forall|j: int| 0 <= j < values@.len() implies (#[trigger] values_view(values@)[j]).0 != c by {
        assert(values_view(values@)[j] == values@[j]@);
    }
    false
}

impl Parameter {
    /// Whether `value`, as text, is acceptable for this parameter.
    pub fn validate_value(&self, value: &str) -> (r: bool)
        requires
            field_wf(self.field_type@),
        ensures
            r == accepts(self.field_type@, value@),
    {
        match &self.field_type {
            FieldType::Range { min, max, .. } => {
                match parse_decimal(value) {
                    Some(d) => decimal_le(*min, d) && decimal_le(d, *max),
                    None => false,
                }
            },
            FieldType::Bitmask(flags) => {
                match parse_u32(value) {
                    Some(n) => {
                        let top = highest_bit(flags);
                        if top >= 32 {
                            proof {
                                lemma_pow2_large(top as nat);
                            }
                            true
                        } else {
                            n as u64 <= pow2_exec(top)
                        }
                    },
                    None => false,
                }
            },
            FieldType::Values(values) => {
                match parse_u32(value) {
                    Some(n) => has_value_code(values, n),
                    None => false,
                }
            },
            FieldType::Unconstrained => true,
        }
    }
}


/// One named parameter of a catalog.
pub struct CatalogEntry {
    pub name: String,
    pub parameter: Parameter,
}

/// Parameter descriptors keyed by name, kept sorted by name. Names are
/// unique and compared case-sensitively.
pub struct Catalog {
    entries: Vec<CatalogEntry>,
}

/// Position of key `k` in `s`, searching from the end; -1 when absent.
pub open spec fn index_of(s: Seq<(Seq<char>, ParamModel)>, k: Seq<char>) -> int
    decreases s.len(),
{
    if s.len() == 0 {
        -1
    } else if s.last().0 == k {
        s.len() - 1
    } else {
        index_of(s.drop_last(), k)
    }
}

pub open spec fn lookup(s: Seq<(Seq<char>, ParamModel)>, k: Seq<char>) -> Option<ParamModel> {
    let i = index_of(s, k);
    if i >= 0 {
        Some(s[i].1)
    } else {
        None
    }
}

/// `s` with `k` bound to `v`: in place when `k` is present, else at its
/// place in name order.
pub open spec fn insert_entry(s: Seq<(Seq<char>, ParamModel)>, k: Seq<char>, v: ParamModel) -> Seq<(Seq<char>, ParamModel)> {
    let i = index_of(s, k);
    if i >= 0 {
        s.update(i, (k, v))
    } else {
        s.insert(insert_pos(s, k), (k, v))
    }
}

/// `a` sorts before `b`: compared character by character, by code point,
/// a proper prefix first. This is the order of `String`'s `Ord`.
pub open spec fn text_lt(a: Seq<char>, b: Seq<char>) -> bool
    decreases a.len(),
{
    if a.len() == 0 {
        b.len() > 0
    } else if b.len() == 0 {
        false
    } else if a[0] != b[0] {
        a[0] < b[0]
    } else {
        text_lt(a.drop_first(), b.drop_first())
    }
}

/// Names strictly increase along the catalog.
pub open spec fn keys_sorted(s: Seq<(Seq<char>, ParamModel)>) -> bool {
    forall|i: int, j: int| 0 <= i < j < s.len() ==> text_lt((#[trigger] s[i]).0, (#[trigger] s[j]).0)
}

/// Where a new name `k` goes: after the last entry whose name sorts before it.
pub open spec fn insert_pos(s: Seq<(Seq<char>, ParamModel)>, k: Seq<char>) -> int
    decreases s.len(),
{
    if s.len() == 0 {
        0
    } else if text_lt(s.last().0, k) {
        s.len() as int
    } else {
        insert_pos(s.drop_last(), k)
    }
}

pub proof fn lemma_text_lt_irreflexive(a: Seq<char>)
    ensures
        !text_lt(a, a),
    decreases a.len(),
{
    if a.len() > 0 {
        lemma_text_lt_irreflexive(a.drop_first());
    }
}

pub proof fn lemma_text_lt_transitive(a: Seq<char>, b: Seq<char>, c: Seq<char>)
    requires
        text_lt(a, b),
        text_lt(b, c),
    ensures
        text_lt(a, c),
    decreases a.len(),
{
    if a.len() > 0 && a[0] == b[0] && b[0] == c[0] {
        lemma_text_lt_transitive(a.drop_first(), b.drop_first(), c.drop_first());
    }
}

pub proof fn lemma_text_lt_total(a: Seq<char>, b: Seq<char>)
    ensures
        a == b || text_lt(a, b) || text_lt(b, a),
    decreases a.len(),
{
    if a.len() > 0 && b.len() > 0 && a[0] != b[0] {
        assert(a[0] < b[0] || b[0] < a[0]);
    } else if a.len() > 0 && b.len() > 0 && a[0] == b[0] {
        lemma_text_lt_total(a.drop_first(), b.drop_first());
        if a.drop_first() == b.drop_first() {
            assert(a =~= seq![a[0]] + a.drop_first());
            assert(b =~= seq![b[0]] + b.drop_first());
        }
    } else if a.len() == 0 && b.len() == 0 {
        assert(a =~= b);
    }
}

pub proof fn lemma_index_of(s: Seq<(Seq<char>, ParamModel)>, k: Seq<char>)
    ensures
        -1 <= index_of(s, k) < s.len(),
        index_of(s, k) >= 0 ==> s[index_of(s, k)].0 == k,
        index_of(s, k) < 0 ==> forall|j: int| 0 <= j < s.len() ==> (#[trigger] s[j]).0 != k,
    decreases s.len(),
{
    if s.len() > 0 {
        lemma_index_of(s.drop_last(), k);
        assert forall|j: int| 0 <= j < s.len() - 1 implies #[trigger] s[j] == s.drop_last()[j] by {}
    }
}

impl View for CatalogEntry {
    type V = (Seq<char>, ParamModel);

    open spec fn view(&self) -> (Seq<char>, ParamModel) {
        (self.name@, self.parameter@)
    }
}

impl View for Catalog {
    type V = Seq<(Seq<char>, ParamModel)>;

    closed spec fn view(&self) -> Seq<(Seq<char>, ParamModel)> {
        self.entries@.map_values(|e: CatalogEntry| e@)
    }
}

impl Catalog {
    /// Names are unique and sorted, and every range has comparable bounds.
    pub open spec fn wf(&self) -> bool {
        keys_sorted(self@) && forall|i: int| 0 <= i < self@.len() ==> field_wf(#[trigger] self@[i].1.field)
    }

    pub fn new() -> (r: Catalog)
        ensures
            r@ == Seq::<(Seq<char>, ParamModel)>::empty(),
            r.wf(),
    {
        let r = Catalog { entries: Vec::new() };
        assert(r@ =~= Seq::<(Seq<char>, ParamModel)>::empty());
        r
    }

    pub fn len(&self) -> (r: usize)
        ensures
            r == self@.len(),
    {
        self.entries.len()
    }

    fn find(&self, name: &str) -> (r: Option<usize>)
        ensures
            r matches Some(i) ==> i as int == index_of(self@, name@) && i < self@.len(),
            r is None ==> index_of(self@, name@) == -1,
            self@.len() == self.entries@.len(),
            forall|j: int| 0 <= j < self@.len() ==> #[trigger] self@[j] == self.entries@[j]@,
    {
        let mut i: usize = self.entries.len();
        assert(self@.take(i as int) =~= self@);
        while i > 0
            invariant
                i <= self.entries.len(),
                index_of(self@, name@) == index_of(self@.take(i as int), name@),
            decreases i,
        {
            let ghost t = self@.take(i as int);
            assert(t.drop_last() == self@.take(i - 1));
            assert(t.last() == self.entries@[i - 1]@);
            if text_eq(&self.entries[i - 1].name, name) {
                return Some(i - 1);
            }
            i = i - 1;
        }
        None
    }

    /// The descriptor stored under `name`.
    pub fn get(&self, name: &str) -> (r: Option<&Parameter>)
        ensures
            match r {
                Some(p) => lookup(self@, name@) == Some(p@),
                None => lookup(self@, name@) is None,
            },
    {
        proof {
            lemma_index_of(self@, name@);
        }
        match self.find(name) {
            Some(i) => Some(&self.entries[i].parameter),
            None => None,
        }
    }

    /// Binds `name` to `parameter`, replacing an earlier descriptor of that name.
    pub fn insert(&mut self, name: String, parameter: Parameter)
        requires
            old(self).wf(),
            field_wf(parameter.field_type@),
        ensures
            final(self)@ == insert_entry(old(self)@, name@, parameter@),
            final(self).wf(),
    {
        let ghost k = name@;
        let ghost v = parameter@;
        proof {
            lemma_index_of(self@, k);
        }
        match self.find(name.as_str()) {
            Some(i) => {
                self.entries.set(i, CatalogEntry { name, parameter });
                assert(self@ =~= old(self)@.update(i as int, (k, v)));
                assert forall|j: int| 0 <= j < self@.len() implies field_wf(#[trigger] self@[j].1.field) by {
                    if j != i {
                        assert(self@[j] == old(self)@[j]);
                    }
                }
                assert forall|x: int, y: int| 0 <= x < y < self@.len() implies text_lt((#[trigger] self@[x]).0, (#[trigger] self@[y]).0) by {
                    assert(self@[x].0 == old(self)@[x].0 && self@[y].0 == old(self)@[y].0);
                }
            },
            None => {
                let p = self.insert_position(name.as_str());
                let ghost o = old(self)@;
                self.entries.insert(p, CatalogEntry { name, parameter });
                assert(self@ =~= o.insert(p as int, (k, v)));
                assert forall|i: int, j: int| 0 <= i < j < self@.len() implies text_lt((#[trigger] self@[i]).0, (#[trigger] self@[j]).0) by {
                    if j < p {
                        assert(self@[i] == o[i] && self@[j] == o[j]);
                    } else if j == p {
                        assert(self@[i] == o[i]);
                        if i < p - 1 {
                            lemma_text_lt_transitive(o[i].0, o[p - 1].0, k);
                        }
                    } else if i == p {
                        assert(self@[j] == o[j - 1]);
                        lemma_text_lt_total(o[j - 1].0, k);
                    } else if i < p {
                        assert(self@[i] == o[i] && self@[j] == o[j - 1]);
                    } else {
                        assert(self@[i] == o[i - 1] && self@[j] == o[j - 1]);
                    }
                }
                assert forall|i: int| 0 <= i < self@.len() implies field_wf(#[trigger] self@[i].1.field) by {
                    if i < p {
                        assert(self@[i] == o[i]);
                    } else if i > p {
                        assert(self@[i] == o[i - 1]);
                    }
                }
            },
        }
    }

    /// Position at which a name not in the catalog is to be inserted; every
    /// entry from there on sorts after it.
    fn insert_position(&self, name: &str) -> (r: usize)
        requires
            index_of(self@, name@) == -1,
        ensures
            r as int == insert_pos(self@, name@),
            r <= self@.len(),
            r > 0 ==> text_lt(self@[r - 1].0, name@),
            forall|j: int| r <= j < self@.len() ==> !text_lt((#[trigger] self@[j]).0, name@),
    {
        let mut p: usize = self.entries.len();
        let ghost s = self@;
        assert(s.take(p as int) =~= s);
        while p > 0 && !text_less(&self.entries[p - 1].name, name)
            invariant
                p <= self.entries.len(),
                s == self@,
                s.len() == self.entries@.len(),
                forall|j: int| 0 <= j < s.len() ==> #[trigger] s[j] == self.entries@[j]@,
                insert_pos(s, name@) == insert_pos(s.take(p as int), name@),
                forall|j: int| p <= j < s.len() ==> !text_lt((#[trigger] s[j]).0, name@),
            decreases p,
        {
            assert(s.take(p as int).drop_last() =~= s.take(p - 1));
            assert(s.take(p as int).last() == s[p - 1]);
            p = p - 1;
        }
        if p > 0 {
            assert(s.take(p as int).last() == s[p - 1]);
        }
        p
    }

    /// The entry at position `i`.
    pub fn entry(&self, i: usize) -> (r: &CatalogEntry)
        requires
            i < self@.len(),
        ensures
            r@ == self@[i as int],
    {
        &self.entries[i]
    }
}

/// Whether `a` sorts before `b` (see [`text_lt`]).
pub fn text_less(a: &String, b: &str) -> (r: bool)
    ensures
        r == text_lt(a@, b@),
{
    let x = a.as_str();
    let n = x.unicode_len();
    let m = b.unicode_len();
    let mut i: usize = 0;
    assert(x@ == a@);
    assert(a@.skip(0) =~= a@ && b@.skip(0) =~= b@);
    while i < n && i < m
        invariant
            i <= n == a@.len(),
            x@ == a@,
            m == b@.len(),
            i <= m,
            text_lt(a@, b@) == text_lt(a@.skip(i as int), b@.skip(i as int)),
        decreases n - i,
    {
        let c = x.get_char(i);
        let d = b.get_char(i);
        assert(a@.skip(i as int)[0] == c && b@.skip(i as int)[0] == d);
        if c != d {
            return c < d;
        }
        assert(a@.skip(i as int).drop_first() =~= a@.skip(i + 1));
        assert(b@.skip(i as int).drop_first() =~= b@.skip(i + 1));
        i = i + 1;
    }
    assert(a@.skip(i as int).len() == n - i && b@.skip(i as int).len() == m - i);
    i == n && i < m
}

/// Whether `a` and `b` hold the same characters.
pub fn text_eq(a: &String, b: &str) -> (r: bool)
    ensures
        r == (a@ == b@),
{
    let t = String::from_str(b);
    *a == t
}

} // verus!
