use vstd::prelude::*;
use quick_xml::events::Event;
use quick_xml::reader::Reader;
use crate::catalog::{
    field_wf, insert_entry, text_eq, BitFlag, Catalog, FieldModel, FieldType, ParamModel, Parameter,
    Value, flags_view, values_view,
};
use crate::numeric::{parse_decimal, parse_u32, spec_parse_decimal, spec_parse_u32, Decimal};
use crate::text::{colon_index, split_at_colon, split_words, strip_prefix, trim, trim_text, words};

verus! {

/// Vendor namespace that a parameter's name must carry to be kept.
pub const NAME_PREFIX: &'static str = "ArduCopter:";

/// An attribute of a start tag; `value` is `None` when its escapes could
/// not be resolved.
pub struct XmlAttr {
    pub key: String,
    pub value: Option<String>,
}

/// One event of the markup reader.
pub enum XmlToken {
    /// A start tag: its name and the text of its attributes.
    Start { name: String, attrs: String },
    End { name: String },
    Eof,
    /// Text, comments, empty elements and the like.
    Other,
    Malformed { message: String },
}

pub type AttrModel = (Seq<char>, Option<Seq<char>>);

pub enum TokenModel {
    Start(Seq<char>, Seq<char>),
    End(Seq<char>),
    Eof,
    Other,
    Malformed(Seq<char>),
}

impl View for XmlAttr {
    type V = AttrModel;

    open spec fn view(&self) -> AttrModel {
        (self.key@, match self.value { Some(v) => Some(v@), None => None })
    }
}

impl View for XmlToken {
    type V = TokenModel;

    open spec fn view(&self) -> TokenModel {
        match self {
            XmlToken::Start { name, attrs } => TokenModel::Start(name@, attrs@),
            XmlToken::End { name } => TokenModel::End(name@),
            XmlToken::Eof => TokenModel::Eof,
            XmlToken::Other => TokenModel::Other,
            XmlToken::Malformed { message } => TokenModel::Malformed(message@),
        }
    }
}

/// Name, human name, documentation and user level read from the
/// attributes of a `param` element; `None` when a value cannot be read.
pub open spec fn param_attrs(attrs: Seq<AttrModel>) -> Option<(Seq<char>, Seq<char>, Seq<char>, Seq<char>)>
    decreases attrs.len(),
{
    if attrs.len() == 0 {
        Some((Seq::empty(), Seq::empty(), Seq::empty(), Seq::empty()))
    } else {
        match (param_attrs(attrs.drop_last()), attrs.last().1) {
            (Some((n, h, d, u)), Some(v)) => {
                let k = attrs.last().0;
                if k == "name"@ {
                    let p = NAME_PREFIX@;
                    if p.len() <= v.len() && v.take(p.len() as int) == p {
                        Some((v.skip(p.len() as int), h, d, u))
                    } else {
                        Some((n, h, d, u))
                    }
                } else if k == "humanName"@ {
                    Some((n, v, d, u))
                } else if k == "documentation"@ {
                    Some((n, h, v, u))
                } else if k == "user"@ {
                    Some((n, h, d, v))
                } else {
                    Some((n, h, d, u))
                }
            },
            _ => None,
        }
    }
}

/// Declared type, lower and upper bound, increment and units read from the
/// attributes of a `field` element.
pub struct FieldAttrs {
    pub kind: Option<Seq<char>>,
    pub min: Option<Decimal>,
    pub max: Option<Decimal>,
    pub increment: Option<Decimal>,
    pub units: Option<Seq<char>>,
}

pub open spec fn field_attrs(attrs: Seq<AttrModel>) -> Option<FieldAttrs>
    decreases attrs.len(),
{
    if attrs.len() == 0 {
        Some(FieldAttrs { kind: None, min: None, max: None, increment: None, units: None })
    } else {
        match (field_attrs(attrs.drop_last()), attrs.last().1) {
            (Some(f), Some(v)) => {
                let k = attrs.last().0;
                if k == "name"@ {
                    Some(FieldAttrs { kind: Some(v), ..f })
                } else if k == "Range"@ {
                    let ws = words(v);
                    if ws.len() >= 2 {
                        Some(FieldAttrs { min: spec_parse_decimal(ws[0]), max: spec_parse_decimal(ws[1]), ..f })
                    } else {
                        Some(f)
                    }
                } else if k == "Increment"@ {
                    Some(FieldAttrs { increment: spec_parse_decimal(v), ..f })
                } else if k == "Units"@ {
                    Some(FieldAttrs { units: Some(v), ..f })
                } else {
                    Some(f)
                }
            },
            _ => None,
        }
    }
}

/// The `code:label` pairs among attribute values; values without a colon
/// or with an unreadable code are skipped.
pub open spec fn code_labels(attrs: Seq<AttrModel>) -> Option<Seq<(u32, Seq<char>)>>
    decreases attrs.len(),
{
    if attrs.len() == 0 {
        Some(Seq::empty())
    } else {
        match (code_labels(attrs.drop_last()), attrs.last().1) {
            (Some(l), Some(v)) => {
                let i = colon_index(v);
                if i >= 0 {
                    match spec_parse_u32(trim(v.take(i))) {
                        Some(c) => Some(l.push((c, trim(v.skip(i + 1))))),
                        None => Some(l),
                    }
                } else {
                    Some(l)
                }
            },
            _ => None,
        }
    }
}

/// State of the catalog reader between two tokens.
pub struct BuildModel {
    pub params: Seq<(Seq<char>, ParamModel)>,
    pub current: Option<(Seq<char>, ParamModel)>,
    pub pending: Option<FieldModel>,
}

/// The reader state after one token; `None` when the document is malformed.
pub open spec fn take_token(b: BuildModel, t: TokenModel) -> Option<BuildModel> {
    match t {
        TokenModel::Start(name, raw) => {
            let attrs = xml_attributes(raw);
            if name == "param"@ {
            match param_attrs(attrs) {
                None => None,
                Some((n, h, d, u)) => Some(BuildModel {
                    current: if n.len() > 0 {
                        Some((n, ParamModel { human_name: h, documentation: d, user: u, field: FieldModel::Unconstrained }))
                    } else {
                        None
                    },
                    pending: None,
                    ..b
                }),
            }
        } else if name == "field"@ {
            match field_attrs(attrs) {
                None => None,
                Some(f) => if f.kind == Some("Range"@) && f.min is Some && f.max is Some {
                    Some(BuildModel {
                        pending: Some(FieldModel::Range { min: f.min.unwrap(), max: f.max.unwrap(), increment: f.increment, units: f.units }),
                        ..b
                    })
                } else {
                    Some(b)
                },
            }
        } else if name == "values"@ || name == "bitmask"@ {
            match code_labels(attrs) {
                None => None,
                Some(l) => if l.len() > 0 {
                    Some(BuildModel {
                        pending: Some(if name == "values"@ { FieldModel::Values(l) } else { FieldModel::Bitmask(l) }),
                        ..b
                    })
                } else {
                    Some(b)
                },
            }
        } else {
            Some(b)
        }
        },
        TokenModel::End(name) => if name == "param"@ {
            match b.current {
                Some((n, p)) => {
                    let q = match b.pending {
                        Some(f) => ParamModel { field: f, ..p },
                        None => p,
                    };
                    Some(BuildModel { params: insert_entry(b.params, n, q), current: None, pending: None })
                },
                None => Some(BuildModel { current: None, pending: None, ..b }),
            }
        } else {
            Some(b)
        },
        TokenModel::Malformed(_) => None,
        _ => Some(b),
    }
}

/// The catalog that tokens `i..` of a document give, from state `b`: reading
/// stops at the first `Eof`, and fails at a malformed token.
pub open spec fn read_tokens(b: BuildModel, toks: Seq<TokenModel>, i: int) -> Option<Seq<(Seq<char>, ParamModel)>>
    decreases toks.len() - i,
{
    if i < 0 || i >= toks.len() {
        Some(b.params)
    } else if toks[i] is Eof {
        Some(b.params)
    } else {
        match take_token(b, toks[i]) {
            None => None,
            Some(b2) => read_tokens(b2, toks, i + 1),
        }
    }
}

pub open spec fn fresh_build() -> BuildModel {
    BuildModel { params: Seq::empty(), current: None, pending: None }
}

/// The catalog that a token sequence describes.
pub open spec fn catalog_of(toks: Seq<TokenModel>) -> Option<Seq<(Seq<char>, ParamModel)>> {
    read_tokens(fresh_build(), toks, 0)
}


pub open spec fn attr_models(v: Seq<XmlAttr>) -> Seq<AttrModel> {
    v.map_values(|a: XmlAttr| a@)
}

proof fn lemma_attr_prefix(v: Seq<XmlAttr>, i: int)
    requires
        0 <= i < v.len(),
    ensures
        attr_models(v).take(i + 1).drop_last() == attr_models(v).take(i),
        attr_models(v).take(i + 1).last() == v[i]@,
        attr_models(v).take(i + 1).len() == i + 1,
{
    assert(attr_models(v).take(i + 1).drop_last() =~= attr_models(v).take(i));
}

fn read_param_attrs(attrs: &Vec<XmlAttr>) -> (r: Option<(String, String, String, String)>)
    ensures
        match r {
            Some((n, h, d, u)) => param_attrs(attr_models(attrs@)) == Some((n@, h@, d@, u@)),
            None => param_attrs(attr_models(attrs@)) is None,
        },
{
    let mut ok = true;
    let mut n = String::new();
    let mut h = String::new();
    let mut d = String::new();
    let mut u = String::new();
    let mut i: usize = 0;
    while i < attrs.len()
        invariant
            i <= attrs.len(),
            ok ==> param_attrs(attr_models(attrs@).take(i as int)) == Some((n@, h@, d@, u@)),
            !ok ==> param_attrs(attr_models(attrs@).take(i as int)) is None,
        decreases attrs.len() - i,
    {
        proof {
            lemma_attr_prefix(attrs@, i as int);
        }
        let a = &attrs[i];
        match &a.value {
            None => {
                ok = false;
            },
            Some(v) => {
                if ok {
                    if text_eq(&a.key, "name") {
                        match strip_prefix(v.as_str(), NAME_PREFIX) {
                            Some(t) => {
                                n = t;
                            },
                            None => {},
                        }
                    } else if text_eq(&a.key, "humanName") {
                        h = v.clone();
                    } else if text_eq(&a.key, "documentation") {
                        d = v.clone();
                    } else if text_eq(&a.key, "user") {
                        u = v.clone();
                    }
                }
            },
        }
        i = i + 1;
    }
    assert(attr_models(attrs@).take(attrs@.len() as int) =~= attr_models(attrs@));
    if ok {
        Some((n, h, d, u))
    } else {
        None
    }
}

/// Exec form of [`FieldAttrs`].
struct FieldAttrsRead {
    kind: Option<String>,
    min: Option<Decimal>,
    max: Option<Decimal>,
    increment: Option<Decimal>,
    units: Option<String>,
}

spec fn field_read_view(f: FieldAttrsRead) -> FieldAttrs {
    FieldAttrs {
        kind: match f.kind { Some(k) => Some(k@), None => None },
        min: f.min,
        max: f.max,
        increment: f.increment,
        units: match f.units { Some(k) => Some(k@), None => None },
    }
}

spec fn decimals_wf(f: FieldAttrsRead) -> bool {
    (f.min matches Some(m) ==> m.wf()) && (f.max matches Some(m) ==> m.wf()) && (f.increment matches Some(m) ==> m.wf())
}

fn read_field_attrs(attrs: &Vec<XmlAttr>) -> (r: Option<FieldAttrsRead>)
    ensures
        match r {
            Some(f) => field_attrs(attr_models(attrs@)) == Some(field_read_view(f)) && decimals_wf(f),
            None => field_attrs(attr_models(attrs@)) is None,
        },
{
    let mut ok = true;
    let mut f = FieldAttrsRead { kind: None, min: None, max: None, increment: None, units: None };
    let mut i: usize = 0;
    while i < attrs.len()
        invariant
            i <= attrs.len(),
            ok ==> field_attrs(attr_models(attrs@).take(i as int)) == Some(field_read_view(f)),
            !ok ==> field_attrs(attr_models(attrs@).take(i as int)) is None,
            decimals_wf(f),
        decreases attrs.len() - i,
    {
        proof {
            lemma_attr_prefix(attrs@, i as int);
        }
        let a = &attrs[i];
        match &a.value {
            None => {
                ok = false;
            },
            Some(v) => {
                if ok {
                    if text_eq(&a.key, "name") {
                        f.kind = Some(v.clone());
                    } else if text_eq(&a.key, "Range") {
                        let ws = split_words(v.as_str());
                        proof {
                            assert(ws@.map_values(|w: String| w@).len() == ws@.len());
                        }
                        if ws.len() >= 2 {
                            assert(ws@.map_values(|w: String| w@)[0] == ws@[0]@);
                            assert(ws@.map_values(|w: String| w@)[1] == ws@[1]@);
                            f.min = parse_decimal(ws[0].as_str());
                            f.max = parse_decimal(ws[1].as_str());
                        }
                    } else if text_eq(&a.key, "Increment") {
                        f.increment = parse_decimal(v.as_str());
                    } else if text_eq(&a.key, "Units") {
                        f.units = Some(v.clone());
                    }
                }
            },
        }
        i = i + 1;
    }
    assert(attr_models(attrs@).take(attrs@.len() as int) =~= attr_models(attrs@));
    if ok {
        Some(f)
    } else {
        None
    }
}

fn read_code_labels(attrs: &Vec<XmlAttr>) -> (r: Option<Vec<(u32, String)>>)
    ensures
        match r {
            Some(l) => code_labels(attr_models(attrs@)) == Some(l@.map_values(|p: (u32, String)| (p.0, p.1@))),
            None => code_labels(attr_models(attrs@)) is None,
        },
{
    let mut ok = true;
    let mut l: Vec<(u32, String)> = Vec::new();
    let mut i: usize = 0;
    while i < attrs.len()
        invariant
            i <= attrs.len(),
            ok ==> code_labels(attr_models(attrs@).take(i as int)) == Some(l@.map_values(|p: (u32, String)| (p.0, p.1@))),
            !ok ==> code_labels(attr_models(attrs@).take(i as int)) is None,
        decreases attrs.len() - i,
    {
        proof {
            lemma_attr_prefix(attrs@, i as int);
        }
        let a = &attrs[i];
        match &a.value {
            None => {
                ok = false;
            },
            Some(v) => {
                if ok {
                    match split_at_colon(v.as_str()) {
                        Some((code, label)) => {
                            let tc = trim_text(code.as_str());
                            match parse_u32(tc.as_str()) {
                                Some(c) => {
                                    let tl = trim_text(label.as_str());
                                    let ghost before = l@;
                                    l.push((c, tl));
                                    assert(l@.map_values(|p: (u32, String)| (p.0, p.1@)) =~= before.map_values(|p: (u32, String)| (p.0, p.1@)).push((c, tl@)));
                                },
                                None => {},
                            }
                        },
                        None => {},
                    }
                }
            },
        }
        i = i + 1;
    }
    assert(attr_models(attrs@).take(attrs@.len() as int) =~= attr_models(attrs@));
    if ok {
        Some(l)
    } else {
        None
    }
}


/// Why a catalog document could not be read.
pub enum CatalogError {
    /// The markup is malformed, or an attribute value holds a bad escape.
    Malformed { message: String },
}

fn to_values(l: Vec<(u32, String)>) -> (r: Vec<Value>)
    ensures
        values_view(r@) == l@.map_values(|p: (u32, String)| (p.0, p.1@)),
{
    let mut r: Vec<Value> = Vec::new();
    let mut i: usize = 0;
    while i < l.len()
        invariant
            i <= l.len(),
            r@.len() == i,
            forall|j: int| 0 <= j < i ==> (#[trigger] r@[j])@ == (l@[j].0, l@[j].1@),
        decreases l.len() - i,
    {
        r.push(Value { code: l[i].0, name: l[i].1.clone() });
        i = i + 1;
    }
    assert(values_view(r@) =~= l@.map_values(|p: (u32, String)| (p.0, p.1@)));
    r
}

fn to_flags(l: Vec<(u32, String)>) -> (r: Vec<BitFlag>)
    ensures
        flags_view(r@) == l@.map_values(|p: (u32, String)| (p.0, p.1@)),
{
    let mut r: Vec<BitFlag> = Vec::new();
    let mut i: usize = 0;
    while i < l.len()
        invariant
            i <= l.len(),
            r@.len() == i,
            forall|j: int| 0 <= j < i ==> (#[trigger] r@[j])@ == (l@[j].0, l@[j].1@),
        decreases l.len() - i,
    {
        r.push(BitFlag { code: l[i].0, name: l[i].1.clone() });
        i = i + 1;
    }
    assert(flags_view(r@) =~= l@.map_values(|p: (u32, String)| (p.0, p.1@)));
    r
}

/// The catalog reader: parameters read so far, the open parameter element,
/// and the field type found inside it.
pub struct CatalogBuilder {
    params: Catalog,
    current: Option<(String, Parameter)>,
    pending: Option<FieldType>,
}

impl View for CatalogBuilder {
    type V = BuildModel;

    closed spec fn view(&self) -> BuildModel {
        BuildModel {
            params: self.params@,
            current: match self.current { Some((n, p)) => Some((n@, p@)), None => None },
            pending: match self.pending { Some(f) => Some(f@), None => None },
        }
    }
}

impl CatalogBuilder {
    pub closed spec fn wf(&self) -> bool {
        &&& self.params.wf()
        &&& (self.current matches Some((n, p)) ==> field_wf(p.field_type@))
        &&& (self.pending matches Some(f) ==> field_wf(f@))
    }

    pub fn new() -> (r: CatalogBuilder)
        ensures
            r.wf(),
            r@ == fresh_build(),
    {
        CatalogBuilder { params: Catalog::new(), current: None, pending: None }
    }

    /// Takes in one token; `false` when the document turns out malformed.
    pub fn take(&mut self, tok: &XmlToken) -> (ok: bool)
        requires
            old(self).wf(),
        ensures
            final(self).wf(),
            ok <==> take_token(old(self)@, tok@) is Some,
            ok ==> take_token(old(self)@, tok@) == Some(final(self)@),
    {
        match tok {
            XmlToken::Start { name, attrs: raw } => {
                let attrs = &read_attributes(raw.as_str());
                if text_eq(name, "param") {
                    match read_param_attrs(attrs) {
                        None => false,
                        Some((n, h, d, u)) => {
                            if n.unicode_len() > 0 {
                                self.current = Some((n, Parameter {
                                    human_name: h,
                                    documentation: d,
                                    user: u,
                                    field_type: FieldType::Unconstrained,
                                }));
                            } else {
                                self.current = None;
                            }
                            self.pending = None;
                            true
                        },
                    }
                } else if text_eq(name, "field") {
                    match read_field_attrs(attrs) {
                        None => false,
                        Some(f) => {
                            let is_range = match &f.kind {
                                Some(k) => text_eq(k, "Range"),
                                None => false,
                            };
                            if is_range && f.min.is_some() && f.max.is_some() {
                                let min = f.min.unwrap();
                                let max = f.max.unwrap();
                                self.pending = Some(FieldType::Range { min, max, increment: f.increment, units: f.units });
                            }
                            true
                        },
                    }
                } else if text_eq(name, "values") || text_eq(name, "bitmask") {
                    let is_values = text_eq(name, "values");
                    match read_code_labels(attrs) {
                        None => false,
                        Some(l) => {
                            if l.len() > 0 {
                                proof {
                                    assert(l@.map_values(|p: (u32, String)| (p.0, p.1@)).len() == l@.len());
                                }
                                if is_values {
                                    self.pending = Some(FieldType::Values(to_values(l)));
                                } else {
                                    self.pending = Some(FieldType::Bitmask(to_flags(l)));
                                }
                            } else {
                                assert(l@.map_values(|p: (u32, String)| (p.0, p.1@)).len() == 0);
                            }
                            true
                        },
                    }
                } else {
                    true
                }
            },
            XmlToken::End { name } => {
                if text_eq(name, "param") && self.current.is_some() {
                    let cur = self.current.take();
                    let (n, mut p) = cur.unwrap();
                    let pend = self.pending.take();
                    match pend {
                        Some(f) => {
                            p.field_type = f;
                        },
                        None => {},
                    }
                    self.params.insert(n, p);
                } else if text_eq(name, "param") {
                    self.pending = None;
                }
                true
            },
            XmlToken::Malformed { .. } => false,
            _ => true,
        }
    }

    pub fn finish(self) -> (r: Catalog)
        requires
            self.wf(),
        ensures
            r@ == self@.params,
            r.wf(),
    {
        self.params
    }
}

pub open spec fn token_models(v: Seq<XmlToken>) -> Seq<TokenModel> {
    v.map_values(|t: XmlToken| t@)
}

/// Builds the catalog that a token sequence describes.
pub fn catalog_from_tokens(toks: &Vec<XmlToken>) -> (r: Result<Catalog, CatalogError>)
    ensures
        match catalog_of(token_models(toks@)) {
            Some(c) => r matches Ok(cat) && cat@ == c && cat.wf(),
            None => r is Err,
        },
{
    let ghost t = token_models(toks@);
    let mut b = CatalogBuilder::new();
    let mut i: usize = 0;
    while i < toks.len()
        invariant
            i <= toks.len(),
            t == token_models(toks@),
            t.len() == toks@.len(),
            b.wf(),
            catalog_of(t) == read_tokens(b@, t, i as int),
        decreases toks.len() - i,
    {
        assert(t[i as int] == toks@[i as int]@);
        if let XmlToken::Eof = &toks[i] {
            return Ok(b.finish());
        }
        if !b.take(&toks[i]) {
            let message = match &toks[i] {
                XmlToken::Malformed { message } => message.clone(),
                _ => String::from_str("attribute value could not be read"),
            };
            return Err(CatalogError::Malformed { message });
        }
        i = i + 1;
    }
    Ok(b.finish())
}


/// The events that quick-xml's reader, trimming whitespace around text,
/// yields for a document: those before the first `Eof`, or up to and
/// including the first error.
pub uninterp spec fn xml_events(text: Seq<char>) -> Seq<TokenModel>;

/// The attributes that quick-xml reads from the attribute text of a tag,
/// as key and unescaped value.
pub uninterp spec fn xml_attributes(raw: Seq<char>) -> Seq<AttrModel>;

/// Relies on quick_xml's `Reader::from_str`, `Reader::trim_text` and
/// `Reader::read_event`: the document's events before the first `Eof`, or
/// up to and including the first error, each tag name as text and the
/// attributes of a start tag as their raw text.
#[verifier::external_body]
fn read_events(text: &str) -> (r: Vec<XmlToken>)
    ensures
        token_models(r@) == xml_events(text@),
{
    let mut reader = Reader::from_str(text);
    reader.trim_text(true);
    let (s, mut out) = (|b: &[u8]| String::from_utf8_lossy(b).into_owned(), Vec::new());
    loop {
        let t = match reader.read_event() {
            Ok(Event::Start(e)) => XmlToken::Start { name: s(e.name().0), attrs: s(e.attributes_raw()) },
            Ok(Event::End(e)) => XmlToken::End { name: s(e.name().0) },
            Ok(Event::Eof) => return out,
            Ok(_) => XmlToken::Other,
            Err(e) => { out.push(XmlToken::Malformed { message: e.to_string() }); return out }
        };
        out.push(t);
    }
}

/// Relies on quick_xml's `Attributes::new` and `Attribute::unescape_value`:
/// the well-formed attributes of a tag's attribute text, in order, each
/// value unescaped, or `None` where unescaping fails.
#[verifier::external_body]
fn read_attributes(raw: &str) -> (r: Vec<XmlAttr>)
    ensures
        attr_models(r@) == xml_attributes(raw@),
{
    quick_xml::events::attributes::Attributes::new(raw, 0).flatten().map(|a| XmlAttr {
        key: String::from_utf8_lossy(a.key.as_ref()).into_owned(),
        value: a.unescape_value().ok().map(|v| v.into_owned()),
    }).collect()
}

/// Reads a catalog document: `param` elements whose name carries
/// [`NAME_PREFIX`], keyed by the name without it, with the field type from
/// their `field`, `values` or `bitmask` elements. Fails exactly when the
/// markup is malformed or an attribute value of one of those elements holds
/// a bad escape.
pub fn parse_parameters(xml_str: &str) -> (r: Result<Catalog, CatalogError>)
    ensures
        match catalog_of(xml_events(xml_str@)) {
            Some(c) => r matches Ok(cat) && cat@ == c && cat.wf(),
            None => r is Err,
        },
{
    let toks = read_events(xml_str);
    catalog_from_tokens(&toks)
}

} // verus!
