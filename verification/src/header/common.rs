//! Typed views of common header fields: each knows its field name, parses
//! itself out of raw value bytes, and writes itself back.

use vstd::prelude::*;
use crate::ascii::{
    spec_is_token, spec_all_ascii, all_ascii, string_from_ascii, bytes_of_string, lower_bytes,
    trim_ows,
};
use crate::header::Headers;
use crate::header::parsing::{split_commas, join_commas, extend_bytes};
use crate::method::bytes_eq;
use crate::numerals::{parse_dec_u64, format_dec_u64, spec_dec_digits};

verus! {

/// A typed header field: its name and how to read it from raw value lines.
pub trait Header: Sized {
    /// The field name, lower-case.
    spec fn spec_header_name() -> Seq<u8>;

    /// The field name as bytes; always a token.
    fn header_name() -> (r: Vec<u8>)
        ensures
            r@ == Self::spec_header_name(),
            spec_is_token(r@),
    ;

    /// Parses the typed value from the raw value lines, if they fit.
    fn parse_header(raw: &Vec<Vec<u8>>) -> (r: Option<Self>);
}

/// A typed header field that can write itself as one value line.
pub trait HeaderFormat: Sized {
    /// The serialized value bytes of this field.
    fn fmt_header(&self) -> (r: Vec<u8>);
}

impl Headers {
    /// Sets a typed header field, replacing any prior value under its
    /// (case-insensitive) name: the map afterwards is exactly the old one
    /// with that field set to the formatted value — everything else keeps
    /// its place, and the field is present.
    pub fn set<H: Header + HeaderFormat>(&mut self, value: H)
        requires
            old(self).wf(),
        ensures
            final(self).wf(),
            exists|v: Seq<u8>|
                final(self)@ == crate::proto::spec_set_header(
                    old(self)@,
                    H::spec_header_name(),
                    seq![v],
                ),
            crate::header::spec_find_header(final(self)@, H::spec_header_name()) is Some,
    {
        let name = H::header_name();
        let formatted = value.fmt_header();
        let ghost fv = formatted@;
        let mut vals: Vec<Vec<u8>> = Vec::new();
        vals.push(formatted);
        let ghost oldm = self@;
        self.set_raw(name, vals);
        proof {
            assert(vals.deep_view() =~~= seq![fv]);
            assert(self@ == crate::proto::spec_set_header(oldm, H::spec_header_name(), seq![fv]));
            crate::proto::lemma_set_header_found(oldm, H::spec_header_name(), seq![fv]);
        }
    }

    /// Reads a typed header field: present and parseable yields the value;
    /// an absent field yields nothing.
    pub fn get<H: Header + HeaderFormat>(&self) -> (r: Option<H>)
        ensures
            crate::header::spec_find_header(self@, H::spec_header_name()) is None ==> r is None,
    {
        let name = H::header_name();
        match self.get_raw(name.as_slice()) {
            Some(raw) => H::parse_header(&raw),
            None => None,
        }
    }

    /// Whether the typed field is present.
    pub fn has<H: Header + HeaderFormat>(&self) -> (r: bool)
        ensures
            r == (crate::header::spec_find_header(self@, H::spec_header_name()) is Some),
    {
        let name = H::header_name();
        self.has_name(name.as_slice())
    }

    /// Removes the typed field; returns whether one existed, and afterwards
    /// the field is gone.
    pub fn remove<H: Header + HeaderFormat>(&mut self) -> (r: bool)
        requires
            old(self).wf(),
        ensures
            final(self).wf(),
            r == (crate::header::spec_find_header(old(self)@, H::spec_header_name()) is Some),
            crate::header::spec_find_header(final(self)@, H::spec_header_name()) is None,
    {
        let name = H::header_name();
        let ghost oldm = self@;
        let r = self.remove_raw(name.as_slice());
        proof {
            crate::header::lemma_remove_gone(oldm, H::spec_header_name());
        }
        r
    }
}

/// The `Content-Length` header: a byte count.
#[derive(Clone, Copy, Debug, PartialEq, Eq, Structural)]
pub struct ContentLength(pub u64);

impl Header for ContentLength {
    open spec fn spec_header_name() -> Seq<u8> {
        crate::proto::spec_cl_name()
    }

    fn header_name() -> (r: Vec<u8>)
        ensures
            r@ == Self::spec_header_name(),
            spec_is_token(r@),
    {
        let name: [u8; 14] = [99, 111, 110, 116, 101, 110, 116, 45, 108, 101, 110, 103, 116, 104];
        proof {
            assert(name@ =~= crate::proto::spec_cl_name());
            assert(spec_is_token(name@));
        }
        vstd::slice::slice_to_vec(name.as_slice())
    }

    /// One raw line of decimal digits: the parsed count, exactly.
    fn parse_header(raw: &Vec<Vec<u8>>) -> (r: Option<Self>)
        ensures
            match r {
                Some(cl) => raw.deep_view().len() == 1 && crate::numerals::spec_dec_value(
                    raw.deep_view()[0],
                ) == cl.0,
                None => raw.deep_view().len() != 1 || raw.deep_view()[0].len() == 0 || (exists|
                    i: int,
                |
                    0 <= i < raw.deep_view()[0].len()
                        && !crate::numerals::spec_is_dec_digit(
                        #[trigger] raw.deep_view()[0][i],
                    )) || crate::numerals::spec_dec_value(raw.deep_view()[0]) > u64::MAX,
            },
    {
        if raw.len() != 1 {
            return None;
        }
        proof {
            assert(raw.deep_view()[0] == raw@[0].deep_view());
            assert(raw@[0].deep_view() =~= raw@[0]@);
        }
        match parse_dec_u64(raw[0].as_slice()) {
            Some(n) => Some(ContentLength(n)),
            None => None,
        }
    }
}

impl HeaderFormat for ContentLength {
    fn fmt_header(&self) -> (r: Vec<u8>)
        ensures
            r@ == spec_dec_digits(self.0 as nat),
    {
        format_dec_u64(self.0)
    }
}

/// The `User-Agent` header: free-form product text.
#[derive(Clone, Debug)]
pub struct UserAgent(pub String);

impl Header for UserAgent {
    open spec fn spec_header_name() -> Seq<u8> {
        seq![117u8, 115u8, 101u8, 114u8, 45u8, 97u8, 103u8, 101u8, 110u8, 116u8]
    }

    fn header_name() -> (r: Vec<u8>)
        ensures
            r@ == Self::spec_header_name(),
            spec_is_token(r@),
    {
        let name: [u8; 10] = [117, 115, 101, 114, 45, 97, 103, 101, 110, 116];
        proof {
            assert(name@ =~= Self::spec_header_name());
            assert(spec_is_token(name@));
        }
        vstd::slice::slice_to_vec(name.as_slice())
    }

    fn parse_header(raw: &Vec<Vec<u8>>) -> (r: Option<Self>) {
        if raw.len() != 1 {
            return None;
        }
        if !all_ascii(raw[0].as_slice()) {
            return None;
        }
        Some(UserAgent(string_from_ascii(vstd::slice::slice_to_vec(raw[0].as_slice()))))
    }
}

impl HeaderFormat for UserAgent {
    fn fmt_header(&self) -> (r: Vec<u8>) {
        bytes_of_string(&self.0)
    }
}

/// A transfer or content coding named by `Transfer-Encoding`.
#[derive(Clone, Debug)]
pub enum Encoding {
    /// The `chunked` coding.
    Chunked,
    /// The `gzip` coding.
    Gzip,
    /// The `deflate` coding.
    Deflate,
    /// The `compress` coding.
    Compress,
    /// The `identity` coding.
    Identity,
    /// Any other coding, by name.
    EncodingExt(String),
}

impl Encoding {
    /// The wire bytes of this coding.
    pub fn wire_bytes(&self) -> (r: Vec<u8>) {
        match self {
            Encoding::Chunked => vec_of(&[99, 104, 117, 110, 107, 101, 100]),
            Encoding::Gzip => vec_of(&[103, 122, 105, 112]),
            Encoding::Deflate => vec_of(&[100, 101, 102, 108, 97, 116, 101]),
            Encoding::Compress => vec_of(&[99, 111, 109, 112, 114, 101, 115, 115]),
            Encoding::Identity => vec_of(&[105, 100, 101, 110, 116, 105, 116, 121]),
            Encoding::EncodingExt(s) => bytes_of_string(s),
        }
    }

    /// Reads a coding from its wire bytes.
    pub fn from_bytes(b: &[u8]) -> (r: Option<Encoding>) {
        if bytes_eq(b, &[99, 104, 117, 110, 107, 101, 100]) {
            Some(Encoding::Chunked)
        } else if bytes_eq(b, &[103, 122, 105, 112]) {
            Some(Encoding::Gzip)
        } else if bytes_eq(b, &[100, 101, 102, 108, 97, 116, 101]) {
            Some(Encoding::Deflate)
        } else if bytes_eq(b, &[99, 111, 109, 112, 114, 101, 115, 115]) {
            Some(Encoding::Compress)
        } else if bytes_eq(b, &[105, 100, 101, 110, 116, 105, 116, 121]) {
            Some(Encoding::Identity)
        } else if all_ascii(b) {
            Some(Encoding::EncodingExt(string_from_ascii(vstd::slice::slice_to_vec(b))))
        } else {
            None
        }
    }
}

impl PartialEq for Encoding {
    fn eq(&self, other: &Encoding) -> (r: bool) {
        match (self, other) {
            (Encoding::Chunked, Encoding::Chunked) => true,
            (Encoding::Gzip, Encoding::Gzip) => true,
            (Encoding::Deflate, Encoding::Deflate) => true,
            (Encoding::Compress, Encoding::Compress) => true,
            (Encoding::Identity, Encoding::Identity) => true,
            (Encoding::EncodingExt(a), Encoding::EncodingExt(b)) => *a == *b,
            _ => false,
        }
    }
}

impl vstd::std_specs::cmp::PartialEqSpecImpl for Encoding {
    open spec fn obeys_eq_spec() -> bool {
        true
    }

    open spec fn eq_spec(&self, other: &Encoding) -> bool {
        match (*self, *other) {
            (Encoding::Chunked, Encoding::Chunked) => true,
            (Encoding::Gzip, Encoding::Gzip) => true,
            (Encoding::Deflate, Encoding::Deflate) => true,
            (Encoding::Compress, Encoding::Compress) => true,
            (Encoding::Identity, Encoding::Identity) => true,
            (Encoding::EncodingExt(a), Encoding::EncodingExt(b)) => a@ == b@,
            _ => false,
        }
    }
}

/// The `Transfer-Encoding` header: the codings applied to the body, in
/// order.
#[derive(Clone, Debug)]
pub struct TransferEncoding(pub Vec<Encoding>);

impl TransferEncoding {
    /// The codings, by reference.
    pub fn encodings(&self) -> (r: &Vec<Encoding>) {
        &self.0
    }

    /// How many codings are named.
    pub fn len(&self) -> (r: usize)
        ensures
            r == self.0@.len(),
    {
        self.0.len()
    }
}

impl Header for TransferEncoding {
    open spec fn spec_header_name() -> Seq<u8> {
        crate::proto::spec_te_name()
    }

    fn header_name() -> (r: Vec<u8>)
        ensures
            r@ == Self::spec_header_name(),
            spec_is_token(r@),
    {
        let name: [u8; 17] = [
            116, 114, 97, 110, 115, 102, 101, 114, 45, 101, 110, 99, 111, 100, 105, 110, 103,
        ];
        proof {
            assert(name@ =~= crate::proto::spec_te_name());
            assert(spec_is_token(name@));
        }
        vstd::slice::slice_to_vec(name.as_slice())
    }

    /// One raw line of comma-separated codings.
    fn parse_header(raw: &Vec<Vec<u8>>) -> (r: Option<Self>) {
        if raw.len() != 1 {
            return None;
        }
        let pieces = split_commas(raw[0].as_slice());
        let mut out: Vec<Encoding> = Vec::new();
        let mut i: usize = 0;
        while i < pieces.len()
            decreases pieces@.len() - i,
        {
            match Encoding::from_bytes(pieces[i].as_slice()) {
                Some(e) => out.push(e),
                None => {
                    return None;
                },
            }
            i = i + 1;
        }
        Some(TransferEncoding(out))
    }
}

impl HeaderFormat for TransferEncoding {
    fn fmt_header(&self) -> (r: Vec<u8>) {
        let mut parts: Vec<Vec<u8>> = Vec::new();
        let mut i: usize = 0;
        while i < self.0.len()
            decreases self.0@.len() - i,
        {
            parts.push(self.0[i].wire_bytes());
            i = i + 1;
        }
        join_commas(&parts)
    }
}

/// Copies a byte array into a vector.
fn vec_of(b: &[u8]) -> (r: Vec<u8>)
    ensures
        r@ == b@,
{
    vstd::slice::slice_to_vec(b)
}

/// A weight from `0` to `1000` thousandths, as written in `q=` parameters.
#[derive(Clone, Copy, Debug, PartialEq, Eq, Structural)]
pub struct Quality(pub u16);

/// A natural language tag: a primary tag and an optional subtag.
#[derive(Clone, Debug)]
pub struct Language {
    /// The primary tag, such as the language itself.
    pub primary: String,
    /// The optional subtag, such as a region.
    pub sub: Option<String>,
}

impl Language {
    /// Reads a language tag from bytes: the part before a `-` and the part
    /// after it, when one is there. Only ASCII tags are accepted.
    pub fn from_bytes(b: &[u8]) -> (r: Option<Language>) {
        if !all_ascii(b) || b.len() == 0 {
            return None;
        }
        let mut dash: Option<usize> = None;
        let mut i: usize = 0;
        while i < b.len()
            invariant
                0 <= i <= b@.len(),
                dash matches Some(d) ==> d < b@.len(),
            decreases b@.len() - i,
        {
            if b[i] == 45 {
                dash = Some(i);
                break ;
            }
            i = i + 1;
        }
        match dash {
            None => Some(
                Language { primary: string_from_ascii(vstd::slice::slice_to_vec(b)), sub: None },
            ),
            Some(d) => {
                let primary = string_from_ascii(
                    vstd::slice::slice_to_vec(vstd::slice::slice_subrange(b, 0, d)),
                );
                let sub = string_from_ascii(
                    vstd::slice::slice_to_vec(vstd::slice::slice_subrange(b, d + 1, b.len())),
                );
                Some(Language { primary, sub: Some(sub) })
            },
        }
    }

    /// The wire bytes of this tag: primary, and `-` plus the subtag when one
    /// is there.
    pub fn wire_bytes(&self) -> (r: Vec<u8>) {
        let mut out = bytes_of_string(&self.primary);
        match &self.sub {
            Some(sub) => {
                out.push(45);
                let sb = bytes_of_string(sub);
                extend_bytes(&mut out, sb.as_slice());
            },
            None => {},
        }
        out
    }

    /// The display form of this tag, as a string.
    pub fn display_string(&self) -> (r: String) {
        let b = self.wire_bytes();
        if all_ascii(b.as_slice()) {
            string_from_ascii(b)
        } else {
            String::new()
        }
    }
}

impl core::str::FromStr for Language {
    type Err = ();

    fn from_str(s: &str) -> (r: Result<Language, ()>) {
        let b = s.as_bytes_vec();
        match Language::from_bytes(b.as_slice()) {
            Some(l) => Ok(l),
            None => Err(()),
        }
    }
}

impl PartialEq for Language {
    fn eq(&self, other: &Language) -> (r: bool) {
        let prim = self.primary == other.primary;
        let sub = match (&self.sub, &other.sub) {
            (None, None) => true,
            (Some(a), Some(b)) => *a == *b,
            _ => false,
        };
        prim && sub
    }
}

impl vstd::std_specs::cmp::PartialEqSpecImpl for Language {
    open spec fn obeys_eq_spec() -> bool {
        true
    }

    open spec fn eq_spec(&self, other: &Language) -> bool {
        self.primary@ == other.primary@ && (match (self.sub, other.sub) {
            (None, None) => true,
            (Some(a), Some(b)) => a@ == b@,
            _ => false,
        })
    }
}

/// A value with a weight: the item and its quality.
#[derive(Clone, Debug)]
pub struct QualityItem {
    /// The weighted item.
    pub item: Language,
    /// Its weight.
    pub quality: Quality,
}

impl QualityItem {
    /// Pairs an item with a weight.
    pub fn new(item: Language, quality: Quality) -> (r: QualityItem)
        ensures
            r.item == item,
            r.quality == quality,
    {
        QualityItem { item, quality }
    }

    /// The wire bytes: the item, and `;q=` with the weight when it is not
    /// the maximum.
    pub fn wire_bytes(&self) -> (r: Vec<u8>) {
        let mut out = self.item.wire_bytes();
        if self.quality.0 != 1000 {
            out.push(59);
            out.push(32);
            out.push(113);
            out.push(61);
            let q = format_q_millis(self.quality.0);
            extend_bytes(&mut out, q.as_slice());
        }
        out
    }

    /// The display form, as a string.
    pub fn display_string(&self) -> (r: String) {
        let b = self.wire_bytes();
        if all_ascii(b.as_slice()) {
            string_from_ascii(b)
        } else {
            String::new()
        }
    }
}

impl PartialEq for QualityItem {
    fn eq(&self, other: &QualityItem) -> (r: bool) {
        let same_q = self.quality.0 == other.quality.0;
        self.item == other.item && same_q
    }
}

impl vstd::std_specs::cmp::PartialEqSpecImpl for QualityItem {
    open spec fn obeys_eq_spec() -> bool {
        true
    }

    open spec fn eq_spec(&self, other: &QualityItem) -> bool {
        vstd::std_specs::cmp::PartialEqSpec::eq_spec(&self.item, &other.item) && self.quality.0
            == other.quality.0
    }
}

/// An item at the highest weight.
pub fn qitem(item: Language) -> (r: QualityItem)
    ensures
        r.item == item,
        r.quality.0 == 1000,
{
    QualityItem { item, quality: Quality(1000) }
}

/// An item at the given weight.
pub fn q(item: Language, quality: u16) -> (r: QualityItem)
    requires
        quality <= 1000,
    ensures
        r.item == item,
        r.quality.0 == quality,
{
    QualityItem { item, quality: Quality(quality) }
}

/// Writes a weight in thousandths as `0`, `1`, or `0.` plus up to three
/// digits with trailing zeros dropped.
pub fn format_q_millis(millis: u16) -> (r: Vec<u8>)
{
    let mut out: Vec<u8> = Vec::new();
    if millis >= 1000 {
        out.push(49);
        return out;
    }
    if millis == 0 {
        out.push(48);
        return out;
    }
    out.push(48);
    out.push(46);
    let d1 = (millis / 100) as u8;
    let d2 = ((millis / 10) % 10) as u8;
    let d3 = (millis % 10) as u8;
    out.push(48 + d1);
    if d2 != 0 || d3 != 0 {
        out.push(48 + d2);
    }
    if d3 != 0 {
        out.push(48 + d3);
    }
    out
}

/// Reads a `q=` weight: `0`, `1`, or either with up to three decimals, into
/// thousandths.
pub fn parse_q_millis(b: &[u8]) -> (r: Option<u16>)
    ensures
        r matches Some(v) ==> v <= 1000,
{
    if b.len() == 0 || b.len() > 5 {
        return None;
    }
    let whole = b[0];
    if whole != 48 && whole != 49 {
        return None;
    }
    let base: u16 = if whole == 49 {
        1000
    } else {
        0
    };
    if b.len() == 1 {
        return Some(base);
    }
    if b[1] != 46 {
        return None;
    }
    let mut frac: u16 = 0;
    let mut scale: u16 = 100;
    let mut i: usize = 2;
    while i < b.len()
        invariant
            2 <= i <= b@.len(),
            b@.len() <= 5,
            scale == 100 || scale == 10 || scale == 1,
            i == 2 ==> frac == 0 && scale == 100,
            i == 3 ==> frac <= 900 && scale == 10,
            i == 4 ==> frac <= 990 && scale == 1,
            i >= 5 ==> frac <= 999,
        decreases b@.len() - i,
    {
        let d = b[i];
        if d < 48 || d > 57 {
            return None;
        }
        frac = frac + (d - 48) as u16 * scale;
        if scale > 1 {
            scale = scale / 10;
        }
        i = i + 1;
    }
    let total = base + frac;
    if total > 1000 {
        return None;
    }
    Some(total)
}

/// The `Accept-Language` header: weighted language tags.
#[derive(Clone, Debug)]
pub struct AcceptLanguage(pub Vec<QualityItem>);

impl PartialEq for AcceptLanguage {
    fn eq(&self, other: &AcceptLanguage) -> (r: bool) {
        if self.0.len() != other.0.len() {
            return false;
        }
        let mut i: usize = 0;
        while i < self.0.len()
            invariant
                self.0@.len() == other.0@.len(),
                0 <= i <= self.0@.len(),
                forall|j: int|
                    0 <= j < i ==> vstd::std_specs::cmp::PartialEqSpec::eq_spec(
                        &self.0@[j],
                        &other.0@[j],
                    ),
            decreases self.0@.len() - i,
        {
            let same = self.0[i] == other.0[i];
            if !same {
                return false;
            }
            i = i + 1;
        }
        true
    }
}

impl vstd::std_specs::cmp::PartialEqSpecImpl for AcceptLanguage {
    open spec fn obeys_eq_spec() -> bool {
        true
    }

    open spec fn eq_spec(&self, other: &AcceptLanguage) -> bool {
        self.0@.len() == other.0@.len() && (forall|j: int|
            0 <= j < self.0@.len() ==> vstd::std_specs::cmp::PartialEqSpec::eq_spec(
                &self.0@[j],
                &other.0@[j],
            ))
    }
}

impl Header for AcceptLanguage {
    open spec fn spec_header_name() -> Seq<u8> {
        seq![
            97u8, 99u8, 99u8, 101u8, 112u8, 116u8, 45u8, 108u8, 97u8, 110u8, 103u8, 117u8, 97u8,
            103u8, 101u8,
        ]
    }

    fn header_name() -> (r: Vec<u8>)
        ensures
            r@ == Self::spec_header_name(),
            spec_is_token(r@),
    {
        let name: [u8; 15] = [97, 99, 99, 101, 112, 116, 45, 108, 97, 110, 103, 117, 97, 103, 101];
        proof {
            assert(name@ =~= Self::spec_header_name());
            assert(spec_is_token(name@));
        }
        vstd::slice::slice_to_vec(name.as_slice())
    }

    /// One raw line of comma-separated weighted tags such as
    /// `en-us;q=1.0, en;q=0.5, fr`.
    fn parse_header(raw: &Vec<Vec<u8>>) -> (r: Option<Self>) {
        if raw.len() != 1 {
            return None;
        }
        let pieces = split_commas(raw[0].as_slice());
        let mut out: Vec<QualityItem> = Vec::new();
        let mut i: usize = 0;
        while i < pieces.len()
            decreases pieces@.len() - i,
        {
            match parse_quality_item(pieces[i].as_slice()) {
                Some(item) => out.push(item),
                None => {
                    return None;
                },
            }
            i = i + 1;
        }
        if out.len() == 0 {
            return None;
        }
        Some(AcceptLanguage(out))
    }
}

impl HeaderFormat for AcceptLanguage {
    fn fmt_header(&self) -> (r: Vec<u8>) {
        let mut parts: Vec<Vec<u8>> = Vec::new();
        let mut i: usize = 0;
        while i < self.0.len()
            decreases self.0@.len() - i,
        {
            parts.push(self.0[i].wire_bytes());
            i = i + 1;
        }
        join_commas(&parts)
    }
}

impl AcceptLanguage {
    /// The display form of the whole list, as a string.
    pub fn display_string(&self) -> (r: String) {
        let b = self.fmt_header();
        if all_ascii(b.as_slice()) {
            string_from_ascii(b)
        } else {
            String::new()
        }
    }
}

/// Reads one weighted tag: the tag, optionally `;q=` and a weight. Split at
/// the semicolon; the weight applies when the parameter is a `q`.
pub fn parse_quality_item(b: &[u8]) -> (r: Option<QualityItem>) {
    let trimmed = trim_ows(b);
    let mut semi: Option<usize> = None;
    let mut i: usize = 0;
    while i < trimmed.len()
        invariant
            0 <= i <= trimmed@.len(),
            semi matches Some(s) ==> s < trimmed@.len(),
        decreases trimmed@.len() - i,
    {
        if trimmed[i] == 59 {
            semi = Some(i);
            break ;
        }
        i = i + 1;
    }
    match semi {
        None => {
            match Language::from_bytes(trimmed.as_slice()) {
                Some(l) => Some(qitem(l)),
                None => None,
            }
        },
        Some(s) => {
            let item_part = trim_ows(vstd::slice::slice_subrange(trimmed.as_slice(), 0, s));
            let param = trim_ows(
                vstd::slice::slice_subrange(trimmed.as_slice(), s + 1, trimmed.len()),
            );
            let lang = match Language::from_bytes(item_part.as_slice()) {
                Some(l) => l,
                None => {
                    return None;
                },
            };
            if param.len() < 2 {
                return None;
            }
            let key = lower_bytes(vstd::slice::slice_subrange(param.as_slice(), 0, 1));
            if !(key.len() == 1 && key[0] == 113 && param[1] == 61) {
                return None;
            }
            let millis = match parse_q_millis(
                vstd::slice::slice_subrange(param.as_slice(), 2, param.len()),
            ) {
                Some(m) => m,
                None => {
                    return None;
                },
            };
            Some(QualityItem { item: lang, quality: Quality(millis) })
        },
    }
}


/// A protocol named in the `Upgrade` header.
#[derive(Clone, Debug)]
pub enum Protocol {
    /// The websocket protocol.
    WebSocket,
    /// Any other protocol, by name.
    ProtocolExt(String),
}

impl Protocol {
    /// The wire bytes of this protocol name.
    pub fn wire_bytes(&self) -> (r: Vec<u8>) {
        match self {
            Protocol::WebSocket => vec_of(
                &[119, 101, 98, 115, 111, 99, 107, 101, 116],
            ),
            Protocol::ProtocolExt(s) => bytes_of_string(s),
        }
    }

    /// Reads a protocol name from its wire bytes.
    pub fn from_bytes(b: &[u8]) -> (r: Option<Protocol>) {
        if bytes_eq(b, &[119, 101, 98, 115, 111, 99, 107, 101, 116]) {
            Some(Protocol::WebSocket)
        } else if all_ascii(b) {
            Some(Protocol::ProtocolExt(string_from_ascii(vstd::slice::slice_to_vec(b))))
        } else {
            None
        }
    }
}

/// The `Upgrade` header: the protocols the sender is willing to switch to.
#[derive(Clone, Debug)]
pub struct Upgrade(pub Vec<Protocol>);

impl Header for Upgrade {
    open spec fn spec_header_name() -> Seq<u8> {
        seq![117u8, 112u8, 103u8, 114u8, 97u8, 100u8, 101u8]
    }

    fn header_name() -> (r: Vec<u8>)
        ensures
            r@ == Self::spec_header_name(),
            spec_is_token(r@),
    {
        let name: [u8; 7] = [117, 112, 103, 114, 97, 100, 101];
        proof {
            assert(name@ =~= Self::spec_header_name());
            assert(spec_is_token(name@));
        }
        vstd::slice::slice_to_vec(name.as_slice())
    }

    /// One raw line of comma-separated protocol names.
    fn parse_header(raw: &Vec<Vec<u8>>) -> (r: Option<Self>) {
        if raw.len() != 1 {
            return None;
        }
        let pieces = split_commas(raw[0].as_slice());
        let mut out: Vec<Protocol> = Vec::new();
        let mut i: usize = 0;
        while i < pieces.len()
            decreases pieces@.len() - i,
        {
            match Protocol::from_bytes(pieces[i].as_slice()) {
                Some(p) => out.push(p),
                None => {
                    return None;
                },
            }
            i = i + 1;
        }
        Some(Upgrade(out))
    }
}

impl HeaderFormat for Upgrade {
    fn fmt_header(&self) -> (r: Vec<u8>) {
        let mut parts: Vec<Vec<u8>> = Vec::new();
        let mut i: usize = 0;
        while i < self.0.len()
            decreases self.0@.len() - i,
        {
            parts.push(self.0[i].wire_bytes());
            i = i + 1;
        }
        join_commas(&parts)
    }
}

/// Wraps a typed header to show the value bytes it would put on the wire.
pub struct HeaderFormatter<'a, H: HeaderFormat>(pub &'a H);

impl<'a, H: HeaderFormat> HeaderFormatter<'a, H> {
    /// The serialized value of the wrapped header, as a string when it is
    /// ASCII.
    pub fn display_string(&self) -> (r: String) {
        let b = self.0.fmt_header();
        if all_ascii(b.as_slice()) {
            string_from_ascii(b)
        } else {
            String::new()
        }
    }
}

/// The `Host` header: the host name and an optional port.
#[derive(Clone, Debug)]
pub struct Host {
    /// The host name.
    pub hostname: String,
    /// An optional port number.
    pub port: Option<u16>,
}

impl PartialEq for Host {
    fn eq(&self, other: &Host) -> (r: bool) {
        let name = self.hostname == other.hostname;
        let port = match (self.port, other.port) {
            (None, None) => true,
            (Some(a), Some(b)) => a == b,
            _ => false,
        };
        name && port
    }
}

impl vstd::std_specs::cmp::PartialEqSpecImpl for Host {
    open spec fn obeys_eq_spec() -> bool {
        true
    }

    open spec fn eq_spec(&self, other: &Host) -> bool {
        self.hostname@ == other.hostname@ && (match (self.port, other.port) {
            (None, None) => true,
            (Some(a), Some(b)) => a == b,
            _ => false,
        })
    }
}

impl Header for Host {
    open spec fn spec_header_name() -> Seq<u8> {
        seq![104u8, 111u8, 115u8, 116u8]
    }

    fn header_name() -> (r: Vec<u8>)
        ensures
            r@ == Self::spec_header_name(),
            spec_is_token(r@),
    {
        let name: [u8; 4] = [104, 111, 115, 116];
        proof {
            assert(name@ =~= Self::spec_header_name());
            assert(spec_is_token(name@));
        }
        vstd::slice::slice_to_vec(name.as_slice())
    }

    /// One raw line: a host name, or host name `:` port. A bracketed
    /// address keeps its brackets; the port is what follows the last colon
    /// after them.
    fn parse_header(raw: &Vec<Vec<u8>>) -> (r: Option<Self>) {
        if raw.len() != 1 {
            return None;
        }
        let line = &raw[0];
        if line.len() == 0 || !all_ascii(line.as_slice()) {
            return None;
        }
        // the split point: after a bracketed address, else the last colon
        let mut split: Option<usize> = None;
        if line[0] == 91 {
            // a bracketed address: find the closing bracket
            let mut close: Option<usize> = None;
            let mut i: usize = 0;
            while i < line.len()
                invariant
                    0 <= i <= line@.len(),
                    close matches Some(c) ==> c < line@.len(),
                decreases line@.len() - i,
            {
                if line[i] == 93 {
                    close = Some(i);
                }
                i = i + 1;
            }
            match close {
                None => {
                    return None;
                },
                Some(c) => {
                    if c + 1 < line.len() {
                        if line[c + 1] != 58 {
                            return None;
                        }
                        split = Some(c + 1);
                    }
                },
            }
        } else {
            let mut i: usize = 0;
            while i < line.len()
                invariant
                    0 <= i <= line@.len(),
                    split matches Some(cpos) ==> cpos < line@.len(),
                decreases line@.len() - i,
            {
                if line[i] == 58 {
                    split = Some(i);
                }
                i = i + 1;
            }
        }
        match split {
            None => Some(
                Host {
                    hostname: string_from_ascii(vstd::slice::slice_to_vec(line.as_slice())),
                    port: None,
                },
            ),
            Some(cpos) => {
                let name_bytes = vstd::slice::slice_subrange(line.as_slice(), 0, cpos);
                let port_bytes = vstd::slice::slice_subrange(
                    line.as_slice(),
                    cpos + 1,
                    line.len(),
                );
                let port = match parse_dec_u64(port_bytes) {
                    Some(p) => {
                        if p > 65535 {
                            return None;
                        }
                        Some(p as u16)
                    },
                    None => {
                        return None;
                    },
                };
                Some(
                    Host {
                        hostname: string_from_ascii(vstd::slice::slice_to_vec(name_bytes)),
                        port,
                    },
                )
            },
        }
    }
}

impl HeaderFormat for Host {
    /// The default ports of the two schemes are left off the wire.
    fn fmt_header(&self) -> (r: Vec<u8>) {
        let mut out = bytes_of_string(&self.hostname);
        match self.port {
            None => {},
            Some(80) => {},
            Some(443) => {},
            Some(p) => {
                out.push(58);
                let digits = format_dec_u64(p as u64);
                extend_bytes(&mut out, digits.as_slice());
            },
        }
        out
    }
}
} // verus!
