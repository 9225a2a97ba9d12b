//! Finding collection-constructor call-sites in Rust source, with the exact
//! byte ranges the patcher splices.
//!
//! The syntax tree is walked elsewhere; what the walk meets is handed here
//! as plain values: a call's path segments and spans, an attribute's path
//! and tokens, a macro's name.  Spans are `(line, column)` pairs, lines
//! counted from 1 and columns counted in characters, as the parser reports
//! them; a byte offset is the start of the line plus the bytes of the
//! line's first `column` characters.  Getting these offsets right is what
//! keeps a patch from corrupting a file.
use vstd::prelude::*;
use vstd::utf8::{decode_utf8, encode_utf8, valid_utf8};
use crate::apply::utf8_text;
use crate::model::{AllocSite, AllocSiteView, CapExpr, CapExprView, Ctor, SiteKey, SiteKeyView};
use crate::text::{chars_eq, chars_of, trim, trim_vec};

verus! {

/// The byte offset at which each line starts: 0, and one past every `\n`.
pub open spec fn line_starts(b: Seq<u8>) -> Seq<usize>
    decreases b.len(),
{
    if b.len() == 0 {
        seq![0usize]
    } else {
        let p = line_starts(b.drop_last());
        if b.last() == 10u8 {
            p.push(b.len() as usize)
        } else {
            p
        }
    }
}

/// The line-start offsets of a source text.
pub fn build_line_offsets(src: &str) -> (r: Vec<usize>)
    ensures
        r@ == line_starts(encode_utf8(src@)),
{
    let b = src.as_bytes();
    let ghost bs = encode_utf8(src@);
    let mut offsets: Vec<usize> = Vec::new();
    offsets.push(0);
    let mut i: usize = 0;
    assert(offsets@ =~= line_starts(bs.take(0)));
    while i < b.len()
        invariant
            b@ == bs,
            i <= b@.len(),
            offsets@ == line_starts(bs.take(i as int)),
        decreases b.len() - i,
    {
        assert(bs.take(i + 1).drop_last() =~= bs.take(i as int));
        assert(bs.take(i + 1).last() == b@[i as int]);
        if b[i] == 10u8 {
            offsets.push(i + 1);
        }
        i = i + 1;
    }
    assert(bs.take(i as int) =~= bs);
    offsets
}

/// A position as the parser reports it: line from 1, column.
#[derive(Debug, Clone, Copy, PartialEq, Eq)]
pub struct LineCol {
    pub line: usize,
    pub column: usize,
}

/// The start and end of a syntax node.
#[derive(Debug, Clone, Copy, PartialEq, Eq)]
pub struct SpanInfo {
    pub start: LineCol,
    pub end: LineCol,
}

/// The number of bytes of the UTF-8 character whose first byte is `lead`.
pub open spec fn char_width(lead: u8) -> int {
    if lead < 0x80u8 {
        1
    } else if lead < 0xE0u8 {
        2
    } else if lead < 0xF0u8 {
        3
    } else {
        4
    }
}

/// The byte position reached from `pos` by stepping over `col` characters
/// of `b`; `None` when a character would run past the end.
pub open spec fn advance(b: Seq<u8>, pos: int, col: nat) -> Option<int>
    decreases col,
{
    if pos < 0 || pos > b.len() {
        None
    } else if col == 0 {
        Some(pos)
    } else if pos == b.len() || pos + char_width(b[pos]) > b.len() {
        None
    } else {
        advance(b, pos + char_width(b[pos]), (col - 1) as nat)
    }
}

/// The byte offset of a position in `b`: the start of its line plus the
/// bytes of the line's first `column` characters; `None` for line 0, a line
/// past the end, or a column past the end of the text.
pub open spec fn offset_of(b: Seq<u8>, offs: Seq<usize>, p: LineCol) -> Option<usize> {
    if p.line == 0 || p.line - 1 >= offs.len() {
        None
    } else {
        match advance(b, offs[p.line - 1] as int, p.column as nat) {
            Some(q) => Some(q as usize),
            None => None,
        }
    }
}

/// The byte range of a span, when both ends have offsets and the end is
/// not before the start.
pub open spec fn byte_range_spec(b: Seq<u8>, offs: Seq<usize>, sp: SpanInfo) -> Option<(usize, usize)> {
    match (offset_of(b, offs, sp.start), offset_of(b, offs, sp.end)) {
        (Some(s), Some(e)) => if e >= s {
            Some((s, e))
        } else {
            None
        },
        _ => None,
    }
}

/// Stepping from `pos` over `col` characters of `b`.
fn advance_exec(b: &[u8], pos: usize, col: usize) -> (r: Option<usize>)
    ensures
        match advance(b@, pos as int, col as nat) {
            Some(q) => r == Some(q as usize) && q <= b@.len(),
            None => r is None,
        },
{
    let mut p: usize = pos;
    let mut k: usize = 0;
    while k < col
        invariant
            k <= col,
            advance(b@, pos as int, col as nat) == advance(b@, p as int, (col - k) as nat),
            k > 0 ==> p <= b@.len(),
            k == 0 ==> p == pos,
        decreases col - k,
    {
        if p >= b.len() {
            return None;
        }
        let lead = b[p];
        let w: usize = if lead < 0x80u8 {
            1
        } else if lead < 0xE0u8 {
            2
        } else if lead < 0xF0u8 {
            3
        } else {
            4
        };
        assert(w == char_width(b@[p as int]));
        if w > b.len() - p {
            return None;
        }
        p = p + w;
        k = k + 1;
    }
    if p > b.len() {
        return None;
    }
    Some(p)
}

fn offset_exec(b: &[u8], offs: &[usize], p: LineCol) -> (r: Option<usize>)
    ensures
        r == offset_of(b@, offs@, p),
{
    if p.line == 0 || p.line - 1 >= offs.len() {
        return None;
    }
    advance_exec(b, offs[p.line - 1], p.column)
}

/// The byte range of a span in the source bytes `b`, given their
/// line-start offsets.
pub fn span_to_byte_range(b: &[u8], offs: &[usize], sp: &SpanInfo) -> (r: Option<std::ops::Range<usize>>)
    ensures
        match byte_range_spec(b@, offs@, *sp) {
            Some((s, e)) => r matches Some(rg) && rg.start == s && rg.end == e,
            None => r is None,
        },
{
    let s = match offset_exec(b, offs, sp.start) {
        Some(s) => s,
        None => {
            return None;
        },
    };
    let e = match offset_exec(b, offs, sp.end) {
        Some(e) => e,
        None => {
            return None;
        },
    };
    if e >= s {
        Some(std::ops::Range { start: s, end: e })
    } else {
        None
    }
}

/// Whether byte `i` starts a character (or is the end) of `b`.
pub open spec fn is_boundary(b: Seq<u8>, i: int) -> bool {
    i == b.len() || (0 <= i < b.len() && !(0x80 <= b[i] && b[i] < 0xc0))
}

/// `str::get(s..e)` of a text with bytes `b`: the text between two
/// character boundaries.
pub open spec fn text_at(b: Seq<u8>, s: int, e: int) -> Option<Seq<char>> {
    if s <= e && e <= b.len() && is_boundary(b, s) && is_boundary(b, e) && valid_utf8(
        b.subrange(s, e),
    ) {
        Some(decode_utf8(b.subrange(s, e)))
    } else {
        None
    }
}

/// The collection type a path segment names.
pub open spec fn ctor_named(n: Seq<char>) -> Option<Ctor> {
    if n == "Vec"@ {
        Some(Ctor::Vec)
    } else if n == "VecDeque"@ {
        Some(Ctor::VecDeque)
    } else if n == "HashMap"@ {
        Some(Ctor::HashMap)
    } else if n == "HashSet"@ {
        Some(Ctor::HashSet)
    } else if n == "BTreeMap"@ {
        Some(Ctor::BTreeMap)
    } else if n == "BTreeSet"@ {
        Some(Ctor::BTreeSet)
    } else {
        None
    }
}

/// A constructor method name.
pub open spec fn is_ctor_leaf(n: Seq<char>) -> bool {
    n == "new"@ || n == "with_capacity"@ || n == "with_capacity_and_hasher"@
}

/// A path `... :: Type :: method` that names a collection constructor: the
/// collection and the method.
pub open spec fn classify_spec(segs: Seq<Seq<char>>) -> Option<(Ctor, Seq<char>)> {
    if segs.len() < 2 {
        None
    } else {
        match ctor_named(segs[segs.len() - 2]) {
            Some(k) => if is_ctor_leaf(segs.last()) {
                Some((k, segs.last()))
            } else {
                None
            },
            None => None,
        }
    }
}

/// The views of a list of strings.
pub open spec fn seg_views(v: Seq<String>) -> Seq<Seq<char>> {
    Seq::new(v.len(), |i: int| v[i]@)
}

fn word_is(v: &Vec<char>, w: &str) -> (r: bool)
    ensures
        r == (v@ == w@),
{
    chars_eq(v, &chars_of(w))
}

/// Classify a path, given its segments, as a collection constructor.
pub fn classify_path(segs: &Vec<String>) -> (r: Option<(Ctor, String)>)
    ensures
        match classify_spec(seg_views(segs@)) {
            Some((k, leaf)) => r matches Some(p) && p.0 == k && p.1@ == leaf,
            None => r is None,
        },
{
    let n = segs.len();
    if n < 2 {
        return None;
    }
    assert(seg_views(segs@)[n - 2] == segs@[n - 2]@);
    assert(seg_views(segs@).last() == segs@[n - 1]@);
    let ty = chars_of(segs[n - 2].as_str());
    let kind = if word_is(&ty, "Vec") {
        Ctor::Vec
    } else if word_is(&ty, "VecDeque") {
        Ctor::VecDeque
    } else if word_is(&ty, "HashMap") {
        Ctor::HashMap
    } else if word_is(&ty, "HashSet") {
        Ctor::HashSet
    } else if word_is(&ty, "BTreeMap") {
        Ctor::BTreeMap
    } else if word_is(&ty, "BTreeSet") {
        Ctor::BTreeSet
    } else {
        return None;
    };
    let leaf = chars_of(segs[n - 1].as_str());
    if !(word_is(&leaf, "with_capacity") || word_is(&leaf, "with_capacity_and_hasher") || word_is(
        &leaf,
        "new",
    )) {
        return None;
    }
    Some((kind, segs[n - 1].clone()))
}

/// An attribute: whether its path is `cfg`, and the tokens of its list
/// argument, if it has one.
pub struct AttrInfo {
    pub is_cfg: bool,
    pub list_tokens: Option<String>,
}

/// `#[cfg(test)]`: a `cfg` attribute whose argument is `test`.
pub open spec fn is_cfg_test(a: AttrInfo) -> bool {
    a.is_cfg && match a.list_tokens {
        Some(t) => trim(t@) == "test"@,
        None => false,
    }
}

/// Whether an attribute list holds `#[cfg(test)]`.
pub fn has_cfg_test(attrs: &Vec<AttrInfo>) -> (r: bool)
    ensures
        r == exists|i: int| 0 <= i < attrs@.len() && is_cfg_test(#[trigger] attrs@[i]),
{
    let mut i: usize = 0;
    while i < attrs.len()
        invariant
            i <= attrs@.len(),
            forall|t: int| 0 <= t < i ==> !is_cfg_test(#[trigger] attrs@[t]),
        decreases attrs.len() - i,
    {
        let a = &attrs[i];
        if a.is_cfg {
            match &a.list_tokens {
                Some(t) => {
                    let tv = trim_vec(&chars_of(t.as_str()));
                    if word_is(&tv, "test") {
                        return true;
                    }
                },
                None => {},
            }
        }
        i = i + 1;
    }
    false
}

/// A call's first argument: its span, and its value when it is an integer
/// literal that fits a `usize`.
pub struct ArgInfo {
    pub span: SpanInfo,
    pub int_literal: Option<usize>,
}

/// A call expression: the segments of its callee when the callee is a path,
/// its span, and its first argument.
pub struct CallInfo {
    pub segments: Option<Vec<String>>,
    pub span: SpanInfo,
    pub first_arg: Option<ArgInfo>,
}

/// The capacity expression of a call's first argument: the literal, or
/// the argument's source text (empty when it cannot be cut out).
pub open spec fn cap_expr_spec(b: Seq<u8>, offs: Seq<usize>, a: ArgInfo) -> CapExprView {
    match a.int_literal {
        Some(v) => CapExprView::Literal(v),
        None => CapExprView::Dynamic(
            match byte_range_spec(b, offs, a.span) {
                Some((s, e)) => match text_at(b, s as int, e as int) {
                    Some(t) => t,
                    None => Seq::empty(),
                },
                None => Seq::empty(),
            },
        ),
    }
}

/// The key of a site: the file and the start of the span.
pub open spec fn key_spec(file: Seq<char>, sp: SpanInfo) -> SiteKeyView {
    SiteKeyView { file, line: sp.start.line as u32, col: sp.start.column as u32 }
}

/// The site a call is, if any: `Type::new()` covers the whole call;
/// `with_capacity` and `with_capacity_and_hasher` cover their first
/// argument.
pub open spec fn call_site(b: Seq<u8>, offs: Seq<usize>, file: Seq<char>, call: CallInfo) -> Option<AllocSiteView> {
    match call.segments {
        None => None,
        Some(segs) => match classify_spec(seg_views(segs@)) {
            None => None,
            Some((k, leaf)) => if leaf == "new"@ {
                match byte_range_spec(b, offs, call.span) {
                    Some((s, e)) => Some(
                        AllocSiteView {
                            key: key_spec(file, call.span),
                            ctor: k,
                            current_cap: CapExprView::Zero,
                            start: s,
                            end: e,
                        },
                    ),
                    None => None,
                }
            } else {
                match call.first_arg {
                    None => None,
                    Some(a) => match byte_range_spec(b, offs, a.span) {
                        Some((s, e)) => Some(
                            AllocSiteView {
                                key: key_spec(file, call.span),
                                ctor: k,
                                current_cap: cap_expr_spec(b, offs, a),
                                start: s,
                                end: e,
                            },
                        ),
                        None => None,
                    },
                }
            },
        },
    }
}

/// The site an empty `vec![]` is: a zero-capacity `Vec` covering the whole
/// macro call.  A `vec!` with contents is no site.
pub open spec fn vec_macro_site(b: Seq<u8>, offs: Seq<usize>, file: Seq<char>, is_vec: bool, empty: bool, sp: SpanInfo) -> Option<AllocSiteView> {
    if is_vec && empty {
        match byte_range_spec(b, offs, sp) {
            Some((s, e)) => Some(
                AllocSiteView {
                    key: key_spec(file, sp),
                    ctor: Ctor::Vec,
                    current_cap: CapExprView::Zero,
                    start: s,
                    end: e,
                },
            ),
            None => None,
        }
    } else {
        None
    }
}

/// The views of a list of sites.
pub open spec fn site_views(v: Seq<AllocSite>) -> Seq<AllocSiteView> {
    Seq::new(v.len(), |i: int| v[i]@)
}

/// A sequence extended by an optional element.
pub open spec fn push_opt<A>(s: Seq<A>, x: Option<A>) -> Seq<A> {
    match x {
        Some(v) => s.push(v),
        None => s,
    }
}

/// What a walk over one source file has found so far.
pub struct SiteCollector {
    sites: Vec<AllocSite>,
    src: String,
    line_offsets: Vec<usize>,
    file: String,
    include_tests: bool,
    in_test_module: bool,
}

impl SiteCollector {
    /// The sites found, in the order met.
    pub closed spec fn found(&self) -> Seq<AllocSiteView> {
        site_views(self.sites@)
    }

    /// The bytes of the source.
    pub closed spec fn bytes(&self) -> Seq<u8> {
        encode_utf8(self.src@)
    }

    /// The line-start offsets in use.
    pub closed spec fn offsets(&self) -> Seq<usize> {
        self.line_offsets@
    }

    /// The file the sites belong to.
    pub closed spec fn file_spec(&self) -> Seq<char> {
        self.file@
    }

    /// Whether `#[cfg(test)]` modules are scanned too.
    pub closed spec fn includes_tests(&self) -> bool {
        self.include_tests
    }

    /// Whether the walk is inside a `#[cfg(test)]` module.
    pub closed spec fn in_tests(&self) -> bool {
        self.in_test_module
    }

    /// Whether the collector's offsets are those of its source.
    pub open spec fn wf(&self) -> bool {
        self.offsets() == line_starts(self.bytes())
    }

    /// A collector for the source `src` of file `file`.
    pub fn new(src: &str, file: &str, include_tests: bool) -> (r: SiteCollector)
        ensures
            r.wf(),
            r.found() == Seq::<AllocSiteView>::empty(),
            r.bytes() == encode_utf8(src@),
            r.file_spec() == file@,
            r.includes_tests() == include_tests,
            !r.in_tests(),
    {
        let r = SiteCollector {
            sites: Vec::new(),
            src: src.to_string(),
            line_offsets: build_line_offsets(src),
            file: file.to_string(),
            include_tests,
            in_test_module: false,
        };
        assert(r.found() =~= Seq::<AllocSiteView>::empty());
        r
    }

    /// Whether calls met now are ignored: inside a test module when test
    /// modules are not scanned.
    pub fn skip(&self) -> (r: bool)
        ensures
            r == (!self.includes_tests() && self.in_tests()),
    {
        !self.include_tests && self.in_test_module
    }

    /// Enter a module; `is_test` when it carries `#[cfg(test)]`.  Returns
    /// whether the walk was inside a test module before, to be handed back
    /// to `leave_module`.
    pub fn enter_module(&mut self, is_test: bool) -> (was: bool)
        ensures
            was == old(self).in_tests(),
            final(self).in_tests() == (old(self).in_tests() || is_test),
            final(self).found() == old(self).found(),
            final(self).bytes() == old(self).bytes(),
            final(self).offsets() == old(self).offsets(),
            final(self).file_spec() == old(self).file_spec(),
            final(self).includes_tests() == old(self).includes_tests(),
    {
        let was = self.in_test_module;
        if is_test {
            self.in_test_module = true;
        }
        was
    }

    /// Leave a module, restoring what `enter_module` returned.
    pub fn leave_module(&mut self, was: bool)
        ensures
            final(self).in_tests() == was,
            final(self).found() == old(self).found(),
            final(self).bytes() == old(self).bytes(),
            final(self).offsets() == old(self).offsets(),
            final(self).file_spec() == old(self).file_spec(),
            final(self).includes_tests() == old(self).includes_tests(),
    {
        self.in_test_module = was;
    }

    /// The source text of a span, if it can be cut out.
    pub fn span_text(&self, sp: &SpanInfo) -> (r: Option<String>)
        ensures
            match byte_range_spec(self.bytes(), self.offsets(), *sp) {
                Some((s, e)) => match text_at(self.bytes(), s as int, e as int) {
                    Some(t) => r matches Some(x) && x@ == t,
                    None => r is None,
                },
                None => r is None,
            },
    {
        let rg = match span_to_byte_range(self.src.as_str().as_bytes(), self.line_offsets.as_slice(), sp) {
            Some(rg) => rg,
            None => {
                return None;
            },
        };
        let b = self.src.as_str().as_bytes();
        let s = rg.start;
        let e = rg.end;
        if e > b.len() {
            return None;
        }
        let sb = s == b.len() || !(0x80 <= b[s] && b[s] < 0xc0);
        let eb = e == b.len() || !(0x80 <= b[e] && b[e] < 0xc0);
        if !sb || !eb {
            return None;
        }
        let mut sub: Vec<u8> = Vec::new();
        let mut i = s;
        while i < e
            invariant
                s <= i <= e <= b@.len(),
                sub@ == b@.subrange(s as int, i as int),
            decreases e - i,
        {
            sub.push(b[i]);
            i = i + 1;
            assert(sub@ =~= b@.subrange(s as int, i as int));
        }
        utf8_text(sub.as_slice())
    }

    /// The capacity expression of a call's first argument.
    pub fn arg_to_cap_expr(&self, a: &ArgInfo) -> (r: CapExpr)
        ensures
            r@ == cap_expr_spec(self.bytes(), self.offsets(), *a),
    {
        match a.int_literal {
            Some(v) => CapExpr::Literal(v),
            None => {
                let t = match self.span_text(&a.span) {
                    Some(t) => t,
                    None => String::new(),
                };
                CapExpr::Dynamic(t)
            },
        }
    }

    fn key_of(&self, sp: &SpanInfo) -> (r: SiteKey)
        ensures
            r@ == key_spec(self.file_spec(), *sp),
    {
        SiteKey { file: self.file.clone(), line: sp.start.line as u32, col: sp.start.column as u32 }
    }

    fn push_site(&mut self, site: AllocSite)
        ensures
            final(self).found() == old(self).found().push(site@),
            final(self).bytes() == old(self).bytes(),
            final(self).offsets() == old(self).offsets(),
            final(self).file_spec() == old(self).file_spec(),
            final(self).includes_tests() == old(self).includes_tests(),
            final(self).in_tests() == old(self).in_tests(),
    {
        let ghost old_found = self.found();
        self.sites.push(site);
        assert(self.found() =~= old_found.push(site@));
    }

    /// Record a call, if it is a collection constructor.
    pub fn try_record_call(&mut self, call: &CallInfo)
        ensures
            final(self).found() == push_opt(
                old(self).found(),
                call_site(old(self).bytes(), old(self).offsets(), old(self).file_spec(), *call),
            ),
            final(self).bytes() == old(self).bytes(),
            final(self).offsets() == old(self).offsets(),
            final(self).file_spec() == old(self).file_spec(),
            final(self).includes_tests() == old(self).includes_tests(),
            final(self).in_tests() == old(self).in_tests(),
    {
        let segs = match &call.segments {
            Some(s) => s,
            None => {
                return;
            },
        };
        let (ctor, leaf) = match classify_path(segs) {
            Some(p) => p,
            None => {
                return;
            },
        };
        let key = self.key_of(&call.span);
        let lv = chars_of(leaf.as_str());
        if word_is(&lv, "new") {
            let rg = match span_to_byte_range(self.src.as_str().as_bytes(), self.line_offsets.as_slice(), &call.span) {
                Some(r) => r,
                None => {
                    return;
                },
            };
            self.push_site(AllocSite { key, ctor, current_cap: CapExpr::Zero, span_bytes: rg });
        } else {
            let a = match &call.first_arg {
                Some(a) => a,
                None => {
                    return;
                },
            };
            let rg = match span_to_byte_range(self.src.as_str().as_bytes(), self.line_offsets.as_slice(), &a.span) {
                Some(r) => r,
                None => {
                    return;
                },
            };
            let current_cap = self.arg_to_cap_expr(a);
            self.push_site(AllocSite { key, ctor, current_cap, span_bytes: rg });
        }
    }

    /// A call met by the walk: recorded unless calls are being skipped.
    pub fn visit_call(&mut self, call: &CallInfo)
        ensures
            final(self).found() == if old(self).includes_tests() || !old(self).in_tests() {
                push_opt(
                    old(self).found(),
                    call_site(old(self).bytes(), old(self).offsets(), old(self).file_spec(), *call),
                )
            } else {
                old(self).found()
            },
            final(self).bytes() == old(self).bytes(),
            final(self).offsets() == old(self).offsets(),
            final(self).file_spec() == old(self).file_spec(),
            final(self).includes_tests() == old(self).includes_tests(),
            final(self).in_tests() == old(self).in_tests(),
    {
        if !self.skip() {
            self.try_record_call(call);
        }
    }

    /// A macro call met by the walk: `is_vec` when its path is or ends in
    /// `vec`, `empty` when it has no tokens.  An empty `vec![]` is recorded
    /// unless calls are being skipped.
    pub fn visit_macro(&mut self, is_vec: bool, empty: bool, sp: &SpanInfo)
        ensures
            final(self).found() == if old(self).includes_tests() || !old(self).in_tests() {
                push_opt(old(self).found(), vec_macro_site(old(self).bytes(), old(self).offsets(), old(self).file_spec(), is_vec, empty, *sp))
            } else {
                old(self).found()
            },
            final(self).bytes() == old(self).bytes(),
            final(self).offsets() == old(self).offsets(),
            final(self).file_spec() == old(self).file_spec(),
            final(self).includes_tests() == old(self).includes_tests(),
            final(self).in_tests() == old(self).in_tests(),
    {
        if self.skip() || !(is_vec && empty) {
            return;
        }
        let key = self.key_of(sp);
        match span_to_byte_range(self.src.as_str().as_bytes(), self.line_offsets.as_slice(), sp) {
            Some(rg) => {
                self.push_site(AllocSite { key, ctor: Ctor::Vec, current_cap: CapExpr::Zero, span_bytes: rg });
            },
            None => {},
        }
    }

    /// The sites found, in the order met.
    pub fn into_sites(self) -> (r: Vec<AllocSite>)
        ensures
            site_views(r@) == self.found(),
    {
        self.sites
    }
}

} // verus!
