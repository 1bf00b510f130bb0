//! The graph-shaped model a caller declares: named places, named transitions,
//! and the arcs connecting them.  The model carries no runtime semantics of
//! its own; the compiler in [`crate::machine`] folds it into the dense vector
//! form.

use vstd::prelude::*;

verus! {

/// A declared place: a stable slot offset assigned at model-build time, an
/// optional initial token count, and an optional capacity (absent or 0 means
/// unbounded).
#[derive(Debug, Clone)]
pub struct Place {
    pub name: String,
    pub offset: i32,
    pub initial: Option<i32>,
    pub capacity: Option<i32>,
}

/// A declared transition: a name and an optional owning role.
#[derive(Debug, Clone)]
pub struct TransitionDecl {
    pub name: String,
    pub role: Option<String>,
}

/// A declared arc between a place and a transition.  `weight` defaults to 1;
/// the four modifiers default to false.  Precedence at compile time is fixed:
/// `inhibit` wins over `consume`, which wins over the default
/// (produce/unmarked) handling.
#[derive(Debug, Clone)]
pub struct ArcDecl {
    pub source: String,
    pub target: String,
    pub weight: Option<i32>,
    pub consume: Option<bool>,
    pub produce: Option<bool>,
    pub inhibit: Option<bool>,
    pub read: Option<bool>,
}

/// A declared model: the model-type string (`"elementary"`, `"workflow"`, or
/// anything else for a general Petri net), places, transitions, and arcs.
#[derive(Debug, Clone)]
pub struct PetriNet {
    pub model_type: String,
    pub places: Vec<Place>,
    pub transitions: Vec<TransitionDecl>,
    pub arcs: Vec<ArcDecl>,
}

/// Mathematical model of a [`Place`].
pub ghost struct SpecPlace {
    pub name: Seq<char>,
    pub offset: i32,
    pub initial: Option<i32>,
    pub capacity: Option<i32>,
}

/// Mathematical model of a [`TransitionDecl`].
pub ghost struct SpecTransDecl {
    pub name: Seq<char>,
    pub role: Option<Seq<char>>,
}

/// Mathematical model of an [`ArcDecl`].
pub ghost struct SpecArcDecl {
    pub source: Seq<char>,
    pub target: Seq<char>,
    pub weight: Option<i32>,
    pub consume: Option<bool>,
    pub produce: Option<bool>,
    pub inhibit: Option<bool>,
    pub read: Option<bool>,
}

/// Mathematical model of a [`PetriNet`].
pub ghost struct SpecModel {
    pub model_type: Seq<char>,
    pub places: Seq<SpecPlace>,
    pub transitions: Seq<SpecTransDecl>,
    pub arcs: Seq<SpecArcDecl>,
}

/// The mathematical view of a list of place declarations.
pub open spec fn places_view(ps: Seq<Place>) -> Seq<SpecPlace> {
    ps.map(|i: int, p: Place| p@)
}

/// The mathematical view of a list of transition declarations.
pub open spec fn decls_view(ts: Seq<TransitionDecl>) -> Seq<SpecTransDecl> {
    ts.map(|i: int, t: TransitionDecl| t@)
}

/// The mathematical view of a list of arc declarations.
pub open spec fn arcs_view(arcs: Seq<ArcDecl>) -> Seq<SpecArcDecl> {
    arcs.map(|i: int, a: ArcDecl| a@)
}

impl View for Place {
    type V = SpecPlace;

    open spec fn view(&self) -> SpecPlace {
        SpecPlace {
            name: self.name@,
            offset: self.offset,
            initial: self.initial,
            capacity: self.capacity,
        }
    }
}

impl View for TransitionDecl {
    type V = SpecTransDecl;

    open spec fn view(&self) -> SpecTransDecl {
        SpecTransDecl {
            name: self.name@,
            role: match self.role {
                Some(r) => Some(r@),
                None => None,
            },
        }
    }
}

impl View for ArcDecl {
    type V = SpecArcDecl;

    open spec fn view(&self) -> SpecArcDecl {
        SpecArcDecl {
            source: self.source@,
            target: self.target@,
            weight: self.weight,
            consume: self.consume,
            produce: self.produce,
            inhibit: self.inhibit,
            read: self.read,
        }
    }
}

impl View for PetriNet {
    type V = SpecModel;

    open spec fn view(&self) -> SpecModel {
        SpecModel {
            model_type: self.model_type@,
            places: places_view(self.places@),
            transitions: decls_view(self.transitions@),
            arcs: arcs_view(self.arcs@),
        }
    }
}

/// The arc's weight, defaulting to 1.
pub open spec fn arc_weight(a: SpecArcDecl) -> int {
    match a.weight {
        Some(w) => w as int,
        None => 1,
    }
}

/// The arc's `consume` modifier, defaulting to false.
pub open spec fn arc_consume(a: SpecArcDecl) -> bool {
    match a.consume {
        Some(b) => b,
        None => false,
    }
}

/// The arc's `produce` modifier, defaulting to false.
pub open spec fn arc_produce(a: SpecArcDecl) -> bool {
    match a.produce {
        Some(b) => b,
        None => false,
    }
}

/// The arc's `inhibit` modifier, defaulting to false.
pub open spec fn arc_inhibit(a: SpecArcDecl) -> bool {
    match a.inhibit {
        Some(b) => b,
        None => false,
    }
}

/// The arc's `read` modifier, defaulting to false.
pub open spec fn arc_read(a: SpecArcDecl) -> bool {
    match a.read {
        Some(b) => b,
        None => false,
    }
}

/// The name of the arc's place end: the target for read and produce arcs, the
/// source otherwise.
pub open spec fn arc_place_name(a: SpecArcDecl) -> Seq<char> {
    if arc_read(a) || arc_produce(a) {
        a.target
    } else {
        a.source
    }
}

/// The name of the arc's transition end: the source for read and produce
/// arcs, the target otherwise.
pub open spec fn arc_trans_name(a: SpecArcDecl) -> Seq<char> {
    if arc_read(a) || arc_produce(a) {
        a.source
    } else {
        a.target
    }
}

/// The first declared place carrying the given name, if any.
pub open spec fn find_place(places: Seq<SpecPlace>, name: Seq<char>) -> Option<SpecPlace>
    decreases places.len(),
{
    if places.len() == 0 {
        None
    } else if places[0].name == name {
        Some(places[0])
    } else {
        find_place(places.drop_first(), name)
    }
}

/// Some declared transition carries the given name.
pub open spec fn trans_exists(decls: Seq<SpecTransDecl>, name: Seq<char>) -> bool {
    exists|i: int| 0 <= i < decls.len() && (#[trigger] decls[i].name) == name
}

/// A well-formed place declaration: its offset addresses a slot and a
/// declared initial count is non-negative.
pub open spec fn place_wf(m: SpecModel, p: SpecPlace) -> bool {
    &&& 0 <= p.offset < m.places.len()
    &&& (p.initial matches Some(v) ==> v >= 0)
}

/// A well-formed arc: its weight's negation fits in an `i32`, its place end
/// and transition end resolve, and the place looked up by the branch the
/// compiler takes for it exists.
pub open spec fn arc_wf(m: SpecModel, a: SpecArcDecl) -> bool {
    &&& (a.weight matches Some(w) ==> w > i32::MIN)
    &&& find_place(m.places, arc_place_name(a)) is Some
    &&& trans_exists(m.transitions, arc_trans_name(a))
    &&& (!arc_inhibit(a) && arc_consume(a) ==> find_place(m.places, a.source) is Some)
    &&& (!arc_inhibit(a) && !arc_consume(a) ==> find_place(m.places, a.target) is Some)
}

/// A well-formed model: place and transition names are distinct (a model is
/// keyed by name), offsets are distinct slot indices, and every arc resolves.
/// Compiling a model that breaks these rules is a caller programming error.
pub open spec fn model_wf(m: SpecModel) -> bool {
    &&& forall|i: int, j: int|
        0 <= i < j < m.places.len() ==> (#[trigger] m.places[i].name) != (
        #[trigger] m.places[j].name)
    &&& forall|i: int, j: int|
        0 <= i < j < m.places.len() ==> (#[trigger] m.places[i].offset) != (
        #[trigger] m.places[j].offset)
    &&& forall|i: int, j: int|
        0 <= i < j < m.transitions.len() ==> (#[trigger] m.transitions[i].name) != (
        #[trigger] m.transitions[j].name)
    &&& forall|i: int| 0 <= i < m.places.len() ==> place_wf(m, #[trigger] m.places[i])
    &&& forall|i: int| 0 <= i < m.arcs.len() ==> arc_wf(m, #[trigger] m.arcs[i])
}

} // verus!

verus! {

/// The decimal digit character for `n` (0 through 9).
pub open spec fn digit_char(n: nat) -> char {
    if n == 0 {
        '0'
    } else if n == 1 {
        '1'
    } else if n == 2 {
        '2'
    } else if n == 3 {
        '3'
    } else if n == 4 {
        '4'
    } else if n == 5 {
        '5'
    } else if n == 6 {
        '6'
    } else if n == 7 {
        '7'
    } else if n == 8 {
        '8'
    } else {
        '9'
    }
}

/// The decimal digits of a non-negative integer.
pub open spec fn dec_str_nat(n: nat) -> Seq<char>
    decreases n,
{
    if n < 10 {
        seq![digit_char(n)]
    } else {
        dec_str_nat(n / 10).push(digit_char(n % 10))
    }
}

/// The decimal rendering of an integer.
pub open spec fn dec_str(n: int) -> Seq<char> {
    if n < 0 {
        seq!['-'] + dec_str_nat((-n) as nat)
    } else {
        dec_str_nat(n as nat)
    }
}

/// A character of a JSON string: a double quote or a backslash is escaped
/// with a backslash, every other character stands verbatim.
pub open spec fn esc_char(c: char) -> Seq<char> {
    if c == '"' || c == '\\' {
        seq!['\\', c]
    } else {
        seq![c]
    }
}

/// A string's characters with JSON escaping applied.
pub open spec fn json_escape(s: Seq<char>) -> Seq<char>
    decreases s.len(),
{
    if s.len() == 0 {
        Seq::empty()
    } else {
        esc_char(s[0]) + json_escape(s.drop_first())
    }
}

/// A string as a JSON string literal: escaped and in double quotes.
pub open spec fn json_quote(s: Seq<char>) -> Seq<char> {
    "\""@ + json_escape(s) + "\""@
}

/// An optional integer as a JSON value.
pub open spec fn json_opt_i32(o: Option<i32>) -> Seq<char> {
    match o {
        Some(v) => dec_str(v as int),
        None => "null"@,
    }
}

/// An optional boolean as a JSON value.
pub open spec fn json_opt_bool(o: Option<bool>) -> Seq<char> {
    match o {
        Some(true) => "true"@,
        Some(false) => "false"@,
        None => "null"@,
    }
}

/// An optional string as a JSON value.
pub open spec fn json_opt_str(o: Option<Seq<char>>) -> Seq<char> {
    match o {
        Some(s) => json_quote(s),
        None => "null"@,
    }
}

/// One place as a JSON object entry.
pub open spec fn place_json(p: SpecPlace) -> Seq<char> {
    "    "@ + json_quote(p.name) + ": {\"offset\": "@ + dec_str(p.offset as int)
        + ", \"initial\": "@ + json_opt_i32(p.initial) + ", \"capacity\": "@ + json_opt_i32(
        p.capacity,
    ) + "}"@
}

/// One transition as a JSON object entry.
pub open spec fn trans_json(t: SpecTransDecl) -> Seq<char> {
    "    "@ + json_quote(t.name) + ": {\"role\": "@ + json_opt_str(t.role) + "}"@
}

/// One arc as a JSON object.
pub open spec fn arc_json(a: SpecArcDecl) -> Seq<char> {
    "    {\"source\": "@ + json_quote(a.source) + ", \"target\": "@ + json_quote(a.target)
        + ", \"weight\": "@ + json_opt_i32(a.weight) + ", \"consume\": "@ + json_opt_bool(
        a.consume,
    ) + ", \"produce\": "@ + json_opt_bool(a.produce) + ", \"inhibit\": "@ + json_opt_bool(
        a.inhibit,
    ) + ", \"read\": "@ + json_opt_bool(a.read) + "}"@
}

/// The first `i` places as comma-separated JSON entries.
pub open spec fn places_json(ps: Seq<SpecPlace>, i: int) -> Seq<char>
    decreases i,
{
    if i <= 0 {
        Seq::empty()
    } else if i == 1 {
        place_json(ps[0])
    } else {
        places_json(ps, i - 1) + ",\n"@ + place_json(ps[i - 1])
    }
}

/// The first `i` transitions as comma-separated JSON entries.
pub open spec fn transs_json(ts: Seq<SpecTransDecl>, i: int) -> Seq<char>
    decreases i,
{
    if i <= 0 {
        Seq::empty()
    } else if i == 1 {
        trans_json(ts[0])
    } else {
        transs_json(ts, i - 1) + ",\n"@ + trans_json(ts[i - 1])
    }
}

/// The first `i` arcs as comma-separated JSON objects.
pub open spec fn arcs_json(arcs: Seq<SpecArcDecl>, i: int) -> Seq<char>
    decreases i,
{
    if i <= 0 {
        Seq::empty()
    } else if i == 1 {
        arc_json(arcs[0])
    } else {
        arcs_json(arcs, i - 1) + ",\n"@ + arc_json(arcs[i - 1])
    }
}

/// The canonical JSON text of a model: the layout the canonical empty packed
/// model uses, with one entry per line.
pub open spec fn json_of(m: SpecModel) -> Seq<char> {
    "{\n  \"modelType\": "@ + json_quote(m.model_type) + ",\n  \"version\": \"v0\",\n  \"places\": {\n"@
        + (if m.places.len() == 0 {
        Seq::<char>::empty()
    } else {
        places_json(m.places, m.places.len() as int) + "\n"@
    }) + "  },\n  \"transitions\": {\n"@ + (if m.transitions.len() == 0 {
        Seq::<char>::empty()
    } else {
        transs_json(m.transitions, m.transitions.len() as int) + "\n"@
    }) + "  },\n  \"arcs\": [\n"@ + (if m.arcs.len() == 0 {
        Seq::<char>::empty()
    } else {
        arcs_json(m.arcs, m.arcs.len() as int) + "\n"@
    }) + "  ]\n}"@
}

/// Renders one decimal digit.
fn digit_str(n: u32) -> (r: &'static str)
    requires
        n < 10,
    ensures
        r@ =~= seq![digit_char(n as nat)],
{
    proof {
        reveal_strlit("0");
        reveal_strlit("1");
        reveal_strlit("2");
        reveal_strlit("3");
        reveal_strlit("4");
        reveal_strlit("5");
        reveal_strlit("6");
        reveal_strlit("7");
        reveal_strlit("8");
        reveal_strlit("9");
    }
    if n == 0 {
        "0"
    } else if n == 1 {
        "1"
    } else if n == 2 {
        "2"
    } else if n == 3 {
        "3"
    } else if n == 4 {
        "4"
    } else if n == 5 {
        "5"
    } else if n == 6 {
        "6"
    } else if n == 7 {
        "7"
    } else if n == 8 {
        "8"
    } else {
        "9"
    }
}

/// Renders a non-negative integer in decimal.
fn dec_of_u32(n: u32) -> (r: String)
    ensures
        r@ == dec_str_nat(n as nat),
    decreases n,
{
    if n < 10 {
        digit_str(n).to_owned()
    } else {
        let prefix = dec_of_u32(n / 10);
        let r = prefix.concat(digit_str(n % 10));
        proof {
            assert(r@ =~= dec_str_nat((n / 10) as nat).push(digit_char((n % 10) as nat)));
        }
        r
    }
}

/// Renders an integer in decimal.
fn dec_of_i32(n: i32) -> (r: String)
    ensures
        r@ == dec_str(n as int),
{
    if n < 0 {
        let mag: u32 = (0 - (n as i64)) as u32;
        let mut r: String = "-".to_owned();
        let digits = dec_of_u32(mag);
        r.append(digits.as_str());
        proof {
            reveal_strlit("-");
            assert(r@ =~= dec_str(n as int));
        }
        r
    } else {
        dec_of_u32(n as u32)
    }
}

} // verus!

verus! {

/// Appends an optional integer as a JSON value.
fn append_opt_i32(r: &mut String, o: &Option<i32>)
    ensures
        final(r)@ == old(r)@ + json_opt_i32(*o),
{
    match o {
        Some(v) => {
            let s = dec_of_i32(*v);
            r.append(s.as_str());
        },
        None => {
            r.append("null");
        },
    }
}

/// Appends an optional boolean as a JSON value.
fn append_opt_bool(r: &mut String, o: &Option<bool>)
    ensures
        final(r)@ == old(r)@ + json_opt_bool(*o),
{
    match o {
        Some(b) => {
            if *b {
                r.append("true");
            } else {
                r.append("false");
            }
        },
        None => {
            r.append("null");
        },
    }
}

proof fn lemma_json_escape_split(s: Seq<char>, i: int)
    requires
        0 <= i <= s.len(),
    ensures
        json_escape(s) == json_escape(s.take(i)) + json_escape(s.skip(i)),
    decreases i,
{
    if i == 0 {
        assert(s.take(0) =~= Seq::<char>::empty());
        assert(s.skip(0) =~= s);
        assert(json_escape(s.take(0)) + json_escape(s.skip(0)) =~= json_escape(s));
    } else {
        lemma_json_escape_split(s.drop_first(), i - 1);
        assert(s.take(i).drop_first() =~= s.drop_first().take(i - 1));
        assert(s.skip(i) =~= s.drop_first().skip(i - 1));
        assert(s.take(i)[0] == s[0]);
        assert((esc_char(s[0]) + json_escape(s.drop_first().take(i - 1))) + json_escape(s.skip(i))
            =~= esc_char(s[0]) + (json_escape(s.drop_first().take(i - 1)) + json_escape(s.skip(i))));
    }
}

proof fn lemma_json_escape_plain(s: Seq<char>)
    requires
        forall|j: int| 0 <= j < s.len() ==> s[j] != '"' && s[j] != '\\',
    ensures
        json_escape(s) == s,
    decreases s.len(),
{
    if s.len() > 0 {
        lemma_json_escape_plain(s.drop_first());
        assert(esc_char(s[0]) =~= seq![s[0]]);
        assert(seq![s[0]] + s.drop_first() =~= s);
    }
}

/// Appends a string with JSON escaping applied.
fn append_escaped(r: &mut String, s: &str)
    ensures
        final(r)@ == old(r)@ + json_escape(s@),
{
    let n = s.unicode_len();
    let mut pos: usize = 0;
    let mut i: usize = 0;
    while i < n
        invariant
            n == s@.len(),
            pos <= i <= n,
            r@ == old(r)@ + json_escape(s@.take(pos as int)),
            forall|j: int| pos <= j < i ==> s@[j] != '"' && s@[j] != '\\',
        decreases n - i,
    {
        let c = s.get_char(i);
        if c == '"' || c == '\\' {
            let ghost before = r@;
            let chunk = s.substring_char(pos, i);
            r.append(chunk);
            if c == '"' {
                r.append("\\\"");
            } else {
                r.append("\\\\");
            }
            proof {
                reveal_strlit("\\\"");
                reveal_strlit("\\\\");
                let sv = s@;
                lemma_json_escape_split(sv.take(i as int + 1), pos as int);
                assert(sv.take(i as int + 1).take(pos as int) =~= sv.take(pos as int));
                let tail = sv.take(i as int + 1).skip(pos as int);
                lemma_json_escape_split(tail, i - pos);
                assert(tail.take(i - pos) =~= sv.subrange(pos as int, i as int));
                assert(tail.skip(i - pos) =~= seq![sv[i as int]]);
                lemma_json_escape_plain(sv.subrange(pos as int, i as int));
                assert(seq![sv[i as int]].drop_first() =~= Seq::<char>::empty());
                assert(json_escape(Seq::<char>::empty()) =~= Seq::<char>::empty());
                assert(esc_char(sv[i as int]) + Seq::<char>::empty() =~= esc_char(sv[i as int]));
                assert(json_escape(seq![sv[i as int]]) =~= esc_char(sv[i as int]));
                assert(r@ =~= old(r)@ + json_escape(sv.take(i as int + 1)));
            }
            pos = i + 1;
        }
        i = i + 1;
    }
    let chunk = s.substring_char(pos, n);
    r.append(chunk);
    proof {
        let sv = s@;
        lemma_json_escape_split(sv, pos as int);
        lemma_json_escape_plain(sv.skip(pos as int));
        assert(sv.skip(pos as int) =~= sv.subrange(pos as int, n as int));
        assert(r@ =~= old(r)@ + json_escape(sv));
    }
}

/// Appends a string in double quotes.
fn append_quoted(r: &mut String, s: &str)
    ensures
        final(r)@ == old(r)@ + json_quote(s@),
{
    r.append("\"");
    append_escaped(r, s);
    r.append("\"");
    proof {
        assert(r@ =~= old(r)@ + json_quote(s@));
    }
}

/// Renders one place as a JSON object entry.
fn place_json_exec(p: &Place) -> (r: String)
    ensures
        r@ == place_json(p@),
{
    let mut r: String = "    ".to_owned();
    append_quoted(&mut r, p.name.as_str());
    r.append(": {\"offset\": ");
    let off = dec_of_i32(p.offset);
    r.append(off.as_str());
    r.append(", \"initial\": ");
    append_opt_i32(&mut r, &p.initial);
    r.append(", \"capacity\": ");
    append_opt_i32(&mut r, &p.capacity);
    r.append("}");
    proof {
        assert(r@ =~= place_json(p@));
    }
    r
}

/// Renders one transition as a JSON object entry.
fn trans_json_exec(t: &TransitionDecl) -> (r: String)
    ensures
        r@ == trans_json(t@),
{
    let mut r: String = "    ".to_owned();
    append_quoted(&mut r, t.name.as_str());
    r.append(": {\"role\": ");
    match &t.role {
        Some(s) => {
            append_quoted(&mut r, s.as_str());
        },
        None => {
            r.append("null");
        },
    }
    r.append("}");
    proof {
        assert(r@ =~= trans_json(t@));
    }
    r
}

/// Renders one arc as a JSON object.
fn arc_json_exec(a: &ArcDecl) -> (r: String)
    ensures
        r@ == arc_json(a@),
{
    let mut r: String = "    {\"source\": ".to_owned();
    append_quoted(&mut r, a.source.as_str());
    r.append(", \"target\": ");
    append_quoted(&mut r, a.target.as_str());
    r.append(", \"weight\": ");
    append_opt_i32(&mut r, &a.weight);
    r.append(", \"consume\": ");
    append_opt_bool(&mut r, &a.consume);
    r.append(", \"produce\": ");
    append_opt_bool(&mut r, &a.produce);
    r.append(", \"inhibit\": ");
    append_opt_bool(&mut r, &a.inhibit);
    r.append(", \"read\": ");
    append_opt_bool(&mut r, &a.read);
    r.append("}");
    proof {
        assert(r@ =~= arc_json(a@));
    }
    r
}

impl PetriNet {
    /// Renders the model as its canonical JSON text.
    pub fn to_json(&self) -> (r: String)
        ensures
            r@ == json_of(self@),
    {
        let mut r: String = "{\n  \"modelType\": ".to_owned();
        append_quoted(&mut r, self.model_type.as_str());
        r.append(",\n  \"version\": \"v0\",\n  \"places\": {\n");
        let ghost head1 = r@;
        let np: usize = self.places.len();
        let mut i: usize = 0;
        while i < np
            invariant
                np == self.places@.len(),
                i <= np,
                r@ == head1 + places_json(places_view(self.places@), i as int),
            decreases np - i,
        {
            if i > 0 {
                r.append(",\n");
            }
            let e = place_json_exec(&self.places[i]);
            r.append(e.as_str());
            proof {
                assert(r@ =~= head1 + places_json(places_view(self.places@), i as int + 1));
            }
            i = i + 1;
        }
        if np > 0 {
            r.append("\n");
        }
        r.append("  },\n  \"transitions\": {\n");
        let ghost head2 = r@;
        let nt: usize = self.transitions.len();
        let mut j: usize = 0;
        while j < nt
            invariant
                nt == self.transitions@.len(),
                j <= nt,
                r@ == head2 + transs_json(decls_view(self.transitions@), j as int),
            decreases nt - j,
        {
            if j > 0 {
                r.append(",\n");
            }
            let e = trans_json_exec(&self.transitions[j]);
            r.append(e.as_str());
            proof {
                assert(r@ =~= head2 + transs_json(decls_view(self.transitions@), j as int + 1));
            }
            j = j + 1;
        }
        if nt > 0 {
            r.append("\n");
        }
        r.append("  },\n  \"arcs\": [\n");
        let ghost head3 = r@;
        let na: usize = self.arcs.len();
        let mut k: usize = 0;
        while k < na
            invariant
                na == self.arcs@.len(),
                k <= na,
                r@ == head3 + arcs_json(arcs_view(self.arcs@), k as int),
            decreases na - k,
        {
            if k > 0 {
                r.append(",\n");
            }
            let e = arc_json_exec(&self.arcs[k]);
            r.append(e.as_str());
            proof {
                assert(r@ =~= head3 + arcs_json(arcs_view(self.arcs@), k as int + 1));
            }
            k = k + 1;
        }
        if na > 0 {
            r.append("\n");
        }
        r.append("  ]\n}");
        proof {
            assert(r@ =~= json_of(self@));
        }
        r
    }
}

} // verus!
