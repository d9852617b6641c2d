//! Reading the JMdict XML file: custom entity definitions, their resolution in
//! entry text, and which XML events make up one `<entry>` element.
use vstd::prelude::*;

use crate::domain::models::entry::Entry;
use crate::table::{table_from, table_insert};
use crate::traits::datasource::Datasource;
use crate::text::{chars_of, find_chars, find_from, replace_all, replace_chars, string_of};

verus! {

/// The JMdict data source, downloaded from `ds_url`.
pub struct JMDictSource {
    pub ds_url: String,
}

impl Datasource for JMDictSource {
    type Entity = Entry;

    /// Where the compressed JMdict file is downloaded from.
    fn url(&self) -> (r: &str)
        ensures
            r@ == self.ds_url@,
    {
        self.ds_url.as_str()
    }
}

// ── Entity definitions ──────────────────────────────────────────────────────

#[verifier::external_type_specification]
#[verifier::external_body]
pub struct ExRegexError(regex::Error);

/// The capture groups of every match of the regular expression `pattern` in
/// `text`, in order: for each match, the text of each group (group 0 being
/// the whole match), or `None` for a group that did not take part.
pub uninterp spec fn regex_captures(pattern: Seq<char>, text: Seq<char>) -> Seq<
    Seq<Option<Seq<char>>>,
>;

/// Whether `regex::Regex::new` accepts `pattern` as a regular expression.
pub uninterp spec fn regex_compiles(pattern: Seq<char>) -> bool;

/// The texts of captured groups.
pub open spec fn group_views(v: Seq<Vec<Option<String>>>) -> Seq<Seq<Option<Seq<char>>>> {
    v.map_values(
        |c: Vec<Option<String>>|
            c@.map_values(
                |g: Option<String>|
                    match g {
                        Some(t) => Some(t@),
                        None => None,
                    },
            ),
    )
}

/// Compiles `pattern` with `regex::Regex::new` and lists the groups of every
/// match of `Regex::captures_iter` on `text`. It fails exactly when
/// `Regex::new` rejects the pattern (`captures_iter` itself cannot fail), as
/// `regex_compiles` names it; otherwise the result is what `regex_captures`
/// names for the two texts.
#[verifier::external_body]
pub(crate) fn regex_capture_groups(pattern: &str, text: &str) -> (r: Result<
    Vec<Vec<Option<String>>>,
    regex::Error,
>)
    ensures
        r is Ok == regex_compiles(pattern@),
        r matches Ok(v) ==> group_views(v@) == regex_captures(pattern@, text@),
{
    let re = regex::Regex::new(pattern)?;
    Ok(
        re.captures_iter(text).map(
            |c| c.iter().map(|m| m.map(|m| m.as_str().to_string())).collect(),
        ).collect(),
    )
}

/// The pattern of an entity definition, `<!ENTITY name "value">`.
pub open spec fn entity_pattern() -> Seq<char> {
    "<!ENTITY\\s+(\\S+)\\s+\"([^\"]+)\">"@
}

/// The `(name, value)` pairs of the matches whose two groups both took part.
pub open spec fn entity_pairs(caps: Seq<Seq<Option<Seq<char>>>>) -> Seq<(Seq<char>, Seq<char>)>
    decreases caps.len(),
{
    if caps.len() == 0 {
        Seq::empty()
    } else {
        let c = caps.last();
        let p = entity_pairs(caps.drop_last());
        if c.len() > 2 && c[1] is Some && c[2] is Some {
            p.push((c[1]->0, c[2]->0))
        } else {
            p
        }
    }
}

/// The texts of a table of strings.
pub open spec fn pair_texts(t: Seq<(String, String)>) -> Seq<(Seq<char>, Seq<char>)> {
    t.map_values(|p: (String, String)| (p.0@, p.1@))
}

/// The entity table of the captures `caps` of the definition pattern: every
/// definition found, a later definition of a name replacing an earlier one.
pub open spec fn captured_entities(
    caps: Seq<Seq<Option<Seq<char>>>>,
    table: Seq<(String, String)>,
) -> bool {
    exists|pairs: Seq<(String, String)>|
        pair_texts(pairs) == entity_pairs(caps) && table == #[trigger] table_from(pairs)
}

/// The entity table read from a DOCTYPE.
pub open spec fn doctype_entities(doctype: Seq<char>, table: Seq<(String, String)>) -> bool {
    captured_entities(regex_captures(entity_pattern(), doctype), table)
}

/// Builds the entity table from the capture groups of the definition
/// pattern's matches (group 1 the name, group 2 the value).
pub fn entities_from_captures(caps: &Vec<Vec<Option<String>>>) -> (r: Vec<(String, String)>)
    ensures
        captured_entities(group_views(caps@), r@),
{
    let ghost cv = group_views(caps@);
    let mut table: Vec<(String, String)> = Vec::new();
    let ghost mut pairs: Seq<(String, String)> = Seq::empty();
    let mut i: usize = 0;
    while i < caps.len()
        invariant
            i <= caps@.len(),
            cv == group_views(caps@),
            pair_texts(pairs) == entity_pairs(cv.take(i as int)),
            table@ == table_from(pairs),
        decreases caps.len() - i,
    {
        proof {
            assert(cv.take(i + 1).drop_last() =~= cv.take(i as int));
            assert(cv.take(i + 1).last() == cv[i as int]);
        }
        let c = &caps[i];
        if c.len() > 2 {
            match (&c[1], &c[2]) {
                (Some(name), Some(value)) => {
                    let n = name.clone();
                    let v = value.clone();
                    proof {
                        assert(pair_texts(pairs.push((n, v))) =~= pair_texts(pairs).push(
                            (n@, v@),
                        ));
                        assert(table_from(pairs.push((n, v))) == crate::table::table_put(
                            table_from(pairs),
                            n,
                            v,
                        )) by {
                            assert(pairs.push((n, v)).drop_last() =~= pairs);
                        }
                        pairs = pairs.push((n, v));
                    }
                    table_insert(&mut table, n, v);
                },
                _ => {},
            }
        }
        i = i + 1;
    }
    proof {
        assert(cv.take(cv.len() as int) =~= cv);
    }
    assert(captured_entities(cv, table@));
    table
}

/// Reads the custom entity definitions of a JMdict DOCTYPE. If the pattern
/// cannot be compiled, no entities are read.
pub fn entities_from_doctype(doctype: &str) -> (r: Vec<(String, String)>)
    ensures
        regex_compiles(entity_pattern()) ==> doctype_entities(doctype@, r@),
        !regex_compiles(entity_pattern()) ==> r@.len() == 0,
{
    let pattern = "<!ENTITY\\s+(\\S+)\\s+\"([^\"]+)\">";
    proof {
        reveal_strlit("<!ENTITY\\s+(\\S+)\\s+\"([^\"]+)\">");
    }
    match regex_capture_groups(pattern, doctype) {
        Ok(caps) => entities_from_captures(&caps),
        Err(_) => Vec::new(),
    }
}

/// How an entity named `name` is referred to: `&name;`.
pub open spec fn entity_ref(name: Seq<char>) -> Seq<char> {
    seq!['&'] + name + seq![';']
}

/// `s` with the references to the entities of `t` replaced by their values,
/// one entity after another in table order.
pub open spec fn resolve_all(s: Seq<char>, t: Seq<(Seq<char>, Seq<char>)>) -> Seq<char>
    decreases t.len(),
{
    if t.len() == 0 {
        s
    } else {
        replace_all(resolve_all(s, t.drop_last()), entity_ref(t.last().0), t.last().1)
    }
}

/// Replaces references to custom JMdict entities (e.g. `&n;`) with their
/// values. Standard XML entities (`&amp;`, `&lt;`, ...) are left untouched.
pub fn resolve_entities(xml: String, entities: &Vec<(String, String)>) -> (r: String)
    ensures
        r@ == resolve_all(xml@, pair_texts(entities@)),
{
    let ghost t = pair_texts(entities@);
    let mut result = chars_of(xml.as_str());
    let mut i: usize = 0;
    while i < entities.len()
        invariant
            i <= entities@.len(),
            t == pair_texts(entities@),
            result@ == resolve_all(xml@, t.take(i as int)),
        decreases entities.len() - i,
    {
        let mut pat: Vec<char> = Vec::new();
        pat.push('&');
        let name = chars_of(entities[i].0.as_str());
        let mut k: usize = 0;
        while k < name.len()
            invariant
                k <= name@.len(),
                pat@ =~= seq!['&'] + name@.take(k as int),
            decreases name.len() - k,
        {
            pat.push(name[k]);
            k = k + 1;
        }
        pat.push(';');
        proof {
            assert(name@.take(name@.len() as int) =~= name@);
            assert(pat@ =~= entity_ref(t[i as int].0));
            assert(t.take(i + 1).drop_last() =~= t.take(i as int));
        }
        let value = chars_of(entities[i].1.as_str());
        result = replace_chars(&result, &pat, &value);
        i = i + 1;
    }
    proof {
        assert(t.take(t.len() as int) =~= t);
    }
    string_of(&result)
}

/// Replacing a pattern that starts with `&` leaves a text without `&` as it is.
proof fn lemma_replace_all_no_amp(s: Seq<char>, pat: Seq<char>, rep: Seq<char>)
    requires
        pat.len() > 0,
        pat[0] == '&',
        !s.contains('&'),
    ensures
        replace_all(s, pat, rep) == s,
    decreases s.len(),
{
    if s.len() >= pat.len() {
        if s.take(pat.len() as int) =~= pat {
            assert(s.take(pat.len() as int)[0] == s[0]);
            assert(s[0] == '&');
        } else {
            assert forall|i: int| 0 <= i < s.drop_first().len() implies s.drop_first()[i] != '&' by {
                assert(s.drop_first()[i] == s[i + 1]);
            }
            lemma_replace_all_no_amp(s.drop_first(), pat, rep);
            assert(seq![s[0]] + s.drop_first() =~= s);
        }
    }
}

/// Entity resolution changes nothing in a text without `&`: every
/// reference it replaces starts with `&`.
pub proof fn lemma_resolve_all_no_amp(s: Seq<char>, t: Seq<(Seq<char>, Seq<char>)>)
    requires
        !s.contains('&'),
    ensures
        resolve_all(s, t) == s,
    decreases t.len(),
{
    if t.len() > 0 {
        lemma_resolve_all_no_amp(s, t.drop_last());
        lemma_replace_all_no_amp(s, entity_ref(t.last().0), t.last().1);
    }
}

/// The JMdict sequence number written in an entry's XML, for messages: the
/// text between the first `<ent_seq>` and the next `</ent_seq>`, or
/// `unknown`.
pub open spec fn entry_id_text(xml: Seq<char>) -> Seq<char> {
    let open = "<ent_seq>"@;
    let close = "</ent_seq>"@;
    let s = find_from(xml, open, 0);
    if s < 0 {
        "unknown"@
    } else {
        let e = find_from(xml, close, s + open.len());
        if e < 0 {
            "unknown"@
        } else {
            xml.subrange(s + open.len(), e)
        }
    }
}

/// The sequence number of an entry, read from its XML text.
pub fn entry_id_hint(xml: &str) -> (r: String)
    ensures
        r@ == entry_id_text(xml@),
{
    let x = chars_of(xml);
    let open = chars_of("<ent_seq>");
    let close = chars_of("</ent_seq>");
    match find_chars(&x, &open, 0) {
        None => String::from_str("unknown"),
        Some(s) => {
            proof {
                crate::text::lemma_find_from(x@, open@, 0);
                assert(crate::text::occurs_at(x@, open@, s as int));
            }
            let open_len = open.len();
            let text_len = x.len();
            assert(s + open_len <= text_len);
            let start = s + open_len;
            match find_chars(&x, &close, start) {
                None => String::from_str("unknown"),
                Some(e) => {
                    proof {
                        crate::text::lemma_find_from(x@, close@, start as int);
                    }
                    let mut out: Vec<char> = Vec::new();
                    let mut k = start;
                    while k < e
                        invariant
                            start <= k <= e <= x@.len(),
                            out@ =~= x@.subrange(start as int, k as int),
                        decreases e - k,
                    {
                        out.push(x[k]);
                        k = k + 1;
                    }
                    string_of(&out)
                },
            }
        },
    }
}

// ── Which events make up an element ─────────────────────────────────────────

/// An XML event as far as the reader's decisions depend on it.
pub enum XmlEvent {
    /// The DOCTYPE declaration.
    DocType,
    /// A start tag with the element name.
    Start(Vec<u8>),
    /// An end tag with the element name.
    End(Vec<u8>),
    /// End of input.
    Eof,
    /// Any other event (text, empty element, comment, ...).
    Other,
    /// The reader failed.
    Failure,
}

/// An event as plain values: its kind (0 DOCTYPE, 1 start tag, 2 end tag,
/// 3 end of input, 4 any other event, 5 read failure) and, for a tag, the
/// element name.
pub open spec fn event_view(e: XmlEvent) -> (int, Seq<u8>) {
    match e {
        XmlEvent::DocType => (0, Seq::empty()),
        XmlEvent::Start(n) => (1, n@),
        XmlEvent::End(n) => (2, n@),
        XmlEvent::Eof => (3, Seq::empty()),
        XmlEvent::Other => (4, Seq::empty()),
        XmlEvent::Failure => (5, Seq::empty()),
    }
}

/// Whether an event ends the reading: the end of input or a failure.
pub open spec fn is_final_event(v: (int, Seq<u8>)) -> bool {
    v.0 == 3 || v.0 == 5
}

/// What `prolog_step` decides for an event.
pub open spec fn prolog_action(v: (int, Seq<u8>)) -> PrologAction {
    if v.0 == 0 {
        PrologAction::ReadEntities
    } else if v.0 == 1 || v.0 == 3 || v.0 == 5 {
        PrologAction::Stop
    } else {
        PrologAction::Continue
    }
}

/// What `capture_step` decides for an event.
pub open spec fn capture_action(collecting: bool, v: (int, Seq<u8>), target: Seq<u8>) -> CaptureAction {
    if v.0 == 1 && v.1 == target {
        CaptureAction::Begin
    } else if v.0 == 2 && v.1 == target {
        if collecting {
            CaptureAction::Finish
        } else {
            CaptureAction::Stop
        }
    } else if v.0 == 3 || v.0 == 5 {
        CaptureAction::Stop
    } else if collecting {
        CaptureAction::Append
    } else {
        CaptureAction::Skip
    }
}

/// What to do with an event while looking for the entity definitions.
#[derive(PartialEq, Eq, Structural)]
pub enum PrologAction {
    /// Read entity definitions from this DOCTYPE and go on.
    ReadEntities,
    /// Go on to the next event.
    Continue,
    /// The prolog is over.
    Stop,
}

/// Entity definitions are read from every DOCTYPE before the first start tag;
/// the first start tag, the end of input or a read failure ends the prolog.
pub fn prolog_step(ev: &XmlEvent) -> (a: PrologAction)
    ensures
        (a is ReadEntities) == (ev is DocType),
        (a is Stop) == (ev is Start || ev is Eof || ev is Failure),
        a == prolog_action(event_view(*ev)),
{
    match ev {
        XmlEvent::DocType => PrologAction::ReadEntities,
        XmlEvent::Start(_) | XmlEvent::Eof | XmlEvent::Failure => PrologAction::Stop,
        _ => PrologAction::Continue,
    }
}

/// What to do with an event while collecting one element.
#[derive(PartialEq, Eq, Structural)]
pub enum CaptureAction {
    /// Start collecting a new element with this start tag.
    Begin,
    /// Add the event to the element being collected.
    Append,
    /// Add this end tag and hand the element on.
    Finish,
    /// Ignore the event.
    Skip,
    /// There are no more elements.
    Stop,
}

/// The decision for one event when collecting elements named `target`:
/// a start tag of `target` begins an element (dropping any unfinished one);
/// its end tag finishes the element being collected, or ends the stream when
/// none is; other events belong to the element being collected, if any; the
/// end of input and read failures end the stream.
pub fn capture_step(collecting: bool, ev: &XmlEvent, target: &Vec<u8>) -> (a: CaptureAction)
    ensures
        match ev {
            XmlEvent::Start(n) => if n@ == target@ {
                a is Begin
            } else if collecting {
                a is Append
            } else {
                a is Skip
            },
            XmlEvent::End(n) => if n@ == target@ {
                if collecting {
                    a is Finish
                } else {
                    a is Stop
                }
            } else if collecting {
                a is Append
            } else {
                a is Skip
            },
            XmlEvent::Eof | XmlEvent::Failure => a is Stop,
            _ => if collecting {
                a is Append
            } else {
                a is Skip
            },
        },
        a == capture_action(collecting, event_view(*ev), target@),
{
    match ev {
        XmlEvent::Start(n) => {
            if bytes_eq(n, target) {
                return CaptureAction::Begin;
            }
        },
        XmlEvent::End(n) => {
            if bytes_eq(n, target) {
                return if collecting {
                    CaptureAction::Finish
                } else {
                    CaptureAction::Stop
                };
            }
        },
        XmlEvent::Eof | XmlEvent::Failure => {
            return CaptureAction::Stop;
        },
        _ => {},
    }
    if collecting {
        CaptureAction::Append
    } else {
        CaptureAction::Skip
    }
}

/// Whether two byte strings are equal.
pub fn bytes_eq(a: &Vec<u8>, b: &Vec<u8>) -> (r: bool)
    ensures
        r == (a@ == b@),
{
    if a.len() != b.len() {
        return false;
    }
    let mut i: usize = 0;
    while i < a.len()
        invariant
            i <= a@.len() == b@.len(),
            forall|j: int| 0 <= j < i ==> a@[j] == b@[j],
        decreases a.len() - i,
    {
        if a[i] != b[i] {
            return false;
        }
        i = i + 1;
    }
    assert(a@ =~= b@);
    true
}

} // verus!
