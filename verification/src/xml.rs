//! Streaming an XML document held in memory: quick-xml reads the events, the
//! decisions of `prolog_step` and `capture_step` pick out the entity
//! definitions and the elements, and each element is handed on as the text
//! quick-xml's writer gives for its events.
use vstd::prelude::*;

use std::io::Cursor;

use quick_xml::events::Event;
use quick_xml::reader::Reader;
use quick_xml::writer::Writer;

use crate::datasources::jmdict::parser::{
    capture_action, capture_step, entities_from_captures, entity_pattern, entity_pairs,
    event_view, group_views, is_final_event, pair_texts, prolog_action, prolog_step,
    regex_capture_groups, regex_captures, regex_compiles, CaptureAction, PrologAction, XmlEvent,
    captured_entities,
};

verus! {

#[verifier::external_type_specification]
#[verifier::external_body]
#[verifier::reject_recursive_types(R)]
pub struct ExXmlReader<R>(Reader<R>);

/// An event read from a document: its kind and element name (as
/// `event_view` gives them) and its text as `quick_xml::Writer` writes it.
pub type EventText = ((int, Seq<u8>), Seq<u8>);

/// The events of the XML document `text`, as `quick_xml::Reader` reads them
/// with `read_event_into`, up to and including the first end of input or read
/// failure.
pub uninterp spec fn xml_events(text: Seq<u8>) -> Seq<EventText>;

/// The events a reader has still to give, up to and including the first end
/// of input or read failure (none once that has been read).
pub uninterp spec fn xml_pending(r: Reader<Cursor<Vec<u8>>>) -> Seq<EventText>;

/// Whether `evs` end with their only end of input or read failure.
pub open spec fn ends_once(evs: Seq<EventText>) -> bool {
    &&& evs.len() > 0
    &&& is_final_event(evs.last().0)
    &&& forall|i: int| 0 <= i < evs.len() - 1 ==> !is_final_event(#[trigger] evs[i].0)
}

/// A reader over `text` (`quick_xml::Reader::from_reader` on a `Cursor`).
/// Reading a document in memory ends in the end of input or a failure.
#[verifier::external_body]
fn open_reader(text: Vec<u8>) -> (r: Reader<Cursor<Vec<u8>>>)
    ensures
        xml_pending(r) == xml_events(text@),
        ends_once(xml_pending(r)),
{
    Reader::from_reader(Cursor::new(text))
}

/// Reads the next event (`Reader::read_event_into`) and writes it with a
/// `quick_xml::Writer` into bytes; a DOCTYPE is written as `<!DOCTYPE `, its
/// content and `>`. Nothing is said of what a reader that has nothing
/// pending gives.
#[verifier::external_body]
fn next_event(r: &mut Reader<Cursor<Vec<u8>>>) -> (e: (XmlEvent, Vec<u8>))
    ensures
        xml_pending(*old(r)).len() > 0 ==> (event_view(e.0), e.1@) == xml_pending(*old(r))[0]
            && xml_pending(*final(r)) == xml_pending(*old(r)).drop_first(),
        xml_pending(*old(r)).len() == 0 ==> xml_pending(*final(r)).len() == 0,
        e.0 is DocType ==> e.1@.len() >= 11 && e.1@.take(10) == "<!DOCTYPE "@.map_values(
            |c: char| c as u8,
        ) && e.1@.last() == 62u8,
{
    let mut buf = Vec::new();
    let ev = r.read_event_into(&mut buf);
    let kind = match &ev {
        Ok(Event::DocType(_)) => XmlEvent::DocType,
        Ok(Event::Start(t)) => XmlEvent::Start(t.name().as_ref().to_vec()),
        Ok(Event::End(t)) => XmlEvent::End(t.name().as_ref().to_vec()),
        Ok(Event::Eof) => XmlEvent::Eof,
        Ok(_) => XmlEvent::Other,
        Err(_) => XmlEvent::Failure,
    };
    let mut w = Writer::new(Vec::new());
    if let Ok(e) = ev {
        let _ = w.write_event(e);
    }
    (kind, w.into_inner())
}

/// The text `String::from_utf8_lossy` gives for `b`.
pub uninterp spec fn utf8_lossy(b: Seq<u8>) -> Seq<char>;

/// Decodes bytes as UTF-8, replacing what is malformed
/// (`String::from_utf8_lossy`).
#[verifier::external_body]
fn lossy_text(b: &Vec<u8>) -> (r: String)
    ensures
        r@ == utf8_lossy(b@),
{
    String::from_utf8_lossy(b.as_slice()).into_owned()
}

/// An XML document being read.
pub struct XmlReader {
    inner: Reader<Cursor<Vec<u8>>>,
    done: bool,
}

// ── What reading gives ──────────────────────────────────────────────────────

/// Reading elements named `target` from the events `evs`, with `buf` the text
/// of the element being collected (if any): the next element's text (or none
/// when the decisions end the stream), and how many events that takes.
pub open spec fn scan_element(evs: Seq<EventText>, buf: Option<Seq<u8>>, target: Seq<u8>) -> (
    Option<Seq<u8>>,
    nat,
)
    decreases evs.len(),
{
    if evs.len() == 0 {
        (None, 0)
    } else {
        let v = evs[0].0;
        let t = evs[0].1;
        let a = capture_action(buf is Some, v, target);
        if a == CaptureAction::Finish {
            (Some(buf->0 + t), 1)
        } else if a == CaptureAction::Stop {
            (None, 1)
        } else {
            let nb = if a == CaptureAction::Begin {
                Some(t)
            } else if a == CaptureAction::Append {
                Some(buf->0 + t)
            } else {
                buf
            };
            let r = scan_element(evs.drop_first(), nb, target);
            (r.0, r.1 + 1)
        }
    }
}

/// Reading one element takes at least one event when it gives an element,
/// and never more events than there are.
pub proof fn lemma_scan_element_bounds(evs: Seq<EventText>, buf: Option<Seq<u8>>, target: Seq<u8>)
    ensures
        scan_element(evs, buf, target).1 <= evs.len(),
        scan_element(evs, buf, target).0 is Some ==> scan_element(evs, buf, target).1 >= 1,
    decreases evs.len(),
{
    if evs.len() > 0 {
        let v = evs[0].0;
        let t = evs[0].1;
        let a = capture_action(buf is Some, v, target);
        let nb = if a == CaptureAction::Begin {
            Some(t)
        } else if a == CaptureAction::Append {
            Some(buf->0 + t)
        } else {
            buf
        };
        lemma_scan_element_bounds(evs.drop_first(), nb, target);
    }
}

/// The elements named `target` that reading `evs` element after element
/// gives, in document order, until a reading gives none; and how many events
/// that takes.
pub open spec fn elements_of(evs: Seq<EventText>, target: Seq<u8>) -> (Seq<Seq<u8>>, nat)
    decreases evs.len(),
{
    let s = scan_element(evs, None, target);
    match s.0 {
        None => (Seq::empty(), s.1),
        Some(t) => {
            proof {
                lemma_scan_element_bounds(evs, None, target);
            }
            let r = elements_of(evs.skip(s.1 as int), target);
            (seq![t] + r.0, s.1 + r.1)
        },
    }
}

/// A reading that gives no element ends either with the events (the end of
/// input or a failure was read) or just after an end tag of `target` that
/// closes no element.
pub proof fn lemma_scan_element_stop(evs: Seq<EventText>, buf: Option<Seq<u8>>, target: Seq<u8>)
    requires
        ends_once(evs),
        scan_element(evs, buf, target).0 is None,
    ensures
        ({
            let n = scan_element(evs, buf, target).1;
            n == evs.len() || (1 <= n <= evs.len() && evs[n - 1].0 == (2int, target))
        }),
    decreases evs.len(),
{
    lemma_scan_element_bounds(evs, buf, target);
    let v = evs[0].0;
    let t = evs[0].1;
    let a = capture_action(buf is Some, v, target);
    if a == CaptureAction::Stop {
        if is_final_event(v) {
            assert(evs.len() == 1);
        }
    } else if a != CaptureAction::Finish {
        let nb = if a == CaptureAction::Begin {
            Some(t)
        } else if a == CaptureAction::Append {
            Some(buf->0 + t)
        } else {
            buf
        };
        let rest = evs.drop_first();
        assert(!is_final_event(v));
        assert(evs.len() > 1);
        assert(rest.last() == evs.last());
        assert forall|i: int| 0 <= i < rest.len() - 1 implies !is_final_event(#[trigger] rest[i].0) by {
            assert(rest[i] == evs[i + 1]);
        }
        lemma_scan_element_stop(rest, nb, target);
        lemma_scan_element_bounds(rest, nb, target);
        let m = scan_element(rest, nb, target).1;
        if m >= 1 {
            assert(rest[m - 1] == evs[m as int]);
        }
    }
}

/// Reading element after element ends either with the events (nothing is
/// left pending, so every later reading gives nothing) or just after an end
/// tag of `target` that closes no element.
pub proof fn lemma_elements_of_end(evs: Seq<EventText>, target: Seq<u8>)
    requires
        ends_once(evs),
    ensures
        ({
            let n = elements_of(evs, target).1;
            n == evs.len() || (1 <= n <= evs.len() && evs[n - 1].0 == (2int, target))
        }),
        scan_element(Seq::<EventText>::empty(), None, target) == (None::<Seq<u8>>, 0nat),
    decreases evs.len(),
{
    let s = scan_element(evs, None, target);
    lemma_scan_element_bounds(evs, None, target);
    match s.0 {
        None => {
            lemma_scan_element_stop(evs, None, target);
        },
        Some(t) => {
            let rest = evs.skip(s.1 as int);
            if s.1 < evs.len() {
                assert(rest.last() == evs.last());
                assert forall|i: int| 0 <= i < rest.len() - 1 implies !is_final_event(
                    #[trigger] rest[i].0,
                ) by {
                    assert(rest[i] == evs[i + s.1]);
                }
                lemma_elements_of_end(rest, target);
                let m = elements_of(rest, target).1;
                if 1 <= m <= rest.len() {
                    assert(rest[m - 1] == evs[s.1 + m - 1]);
                }
            } else {
                assert(rest.len() == 0);
                assert(scan_element(rest, None, target) == (None::<Seq<u8>>, 0nat));
            }
        },
    }
}

/// The bytes of an optional buffer.
pub open spec fn opt_view(o: Option<Vec<u8>>) -> Option<Seq<u8>> {
    match o {
        Some(b) => Some(b@),
        None => None,
    }
}

/// The content of a DOCTYPE as written: the text between `<!DOCTYPE ` and
/// the closing `>`.
pub open spec fn doctype_content(t: Seq<u8>) -> Seq<u8> {
    t.subrange(10, t.len() - 1)
}

/// The DOCTYPE contents before the first start tag, end of input or failure
/// among the events `evs`, and how many events reading them takes.
pub open spec fn scan_prolog(evs: Seq<EventText>) -> (Seq<Seq<u8>>, nat)
    decreases evs.len(),
{
    if evs.len() == 0 {
        (Seq::empty(), 0)
    } else {
        let a = prolog_action(evs[0].0);
        if a == PrologAction::Stop {
            (Seq::empty(), 1)
        } else {
            let r = scan_prolog(evs.drop_first());
            if a == PrologAction::ReadEntities {
                (seq![doctype_content(evs[0].1)] + r.0, r.1 + 1)
            } else {
                (r.0, r.1 + 1)
            }
        }
    }
}

/// The captures of the definition pattern in every DOCTYPE content, decoded
/// lossily, one after another.
pub open spec fn doctype_captures(ds: Seq<Seq<u8>>) -> Seq<Seq<Option<Seq<char>>>>
    decreases ds.len(),
{
    if ds.len() == 0 {
        Seq::empty()
    } else {
        regex_captures(entity_pattern(), utf8_lossy(ds[0])) + doctype_captures(ds.drop_first())
    }
}

impl XmlReader {
    /// The pending events end with their only end of input or failure,
    /// unless that has been read.
    pub closed spec fn wf(self) -> bool {
        self.done || ends_once(xml_pending(self.inner))
    }

    /// The events still to be read, up to and including the first end of
    /// input or failure.
    pub closed spec fn pending(self) -> Seq<EventText> {
        if self.done {
            Seq::empty()
        } else {
            xml_pending(self.inner)
        }
    }

    /// Starts reading the document held in `text`.
    pub fn new(text: Vec<u8>) -> (r: Self)
        ensures
            r.wf(),
            r.pending() == xml_events(text@),
    {
        XmlReader { inner: open_reader(text), done: false }
    }

    /// Reads one event; `None` once the end of input or a failure was read.
    fn step(&mut self) -> (e: Option<(XmlEvent, Vec<u8>)>)
        requires
            old(self).wf(),
        ensures
            final(self).wf(),
            old(self).pending().len() == 0 ==> e is None && final(self).pending().len() == 0,
            old(self).pending().len() > 0 ==> (e matches Some(x) && (event_view(x.0), x.1@)
                == old(self).pending()[0] && final(self).pending() == old(self).pending().drop_first()),
            e matches Some(x) ==> (x.0 is DocType ==> x.1@.len() >= 11),
    {
        if self.done {
            return None;
        }
        let ghost before = xml_pending(self.inner);
        let e = next_event(&mut self.inner);
        if matches!(e.0, XmlEvent::Eof) || matches!(e.0, XmlEvent::Failure) {
            self.done = true;
            proof {
                assert(is_final_event(before[0].0));
                assert(before.len() == 1);
            }
        } else {
            proof {
                let p = before.drop_first();
                assert(!is_final_event(before[0].0));
                assert(before.len() > 1);
                assert(p.last() == before.last());
                assert forall|i: int| 0 <= i < p.len() - 1 implies !is_final_event(#[trigger] p[i].0) by {
                    assert(p[i] == before[i + 1]);
                }
            }
        }
        Some(e)
    }

    /// The text of the next element named `target`, from its start tag to its
    /// end tag, as `capture_step` decides event by event; `None` when the
    /// decisions end the stream first.
    pub fn next_element(&mut self, target: &Vec<u8>) -> (x: Option<Vec<u8>>)
        requires
            old(self).wf(),
        ensures
            final(self).wf(),
            match scan_element(old(self).pending(), None, target@).0 {
                Some(t) => x matches Some(v) && v@ == t,
                None => x is None,
            },
            final(self).pending() == old(self).pending().skip(
                scan_element(old(self).pending(), None, target@).1 as int,
            ),
    {
        let ghost p0 = self.pending();
        let ghost mut k: int = 0;
        let mut buf: Option<Vec<u8>> = None;
        loop
            invariant
                0 <= k <= p0.len(),
                p0 == old(self).pending(),
                self.wf(),
                self.pending() == p0.skip(k),
                scan_element(p0, None, target@) == ({
                    let r = scan_element(p0.skip(k), opt_view(buf), target@);
                    (r.0, r.1 + k as nat)
                }),
            decreases p0.len() - k,
        {
            let ghost pk = self.pending();
            let ghost bv = opt_view(buf);
            let e = match self.step() {
                None => {
                    assert(pk.len() == 0);
                    assert(scan_element(pk, bv, target@) == (None::<Seq<u8>>, 0nat));
                    assert(p0.skip(k) =~= self.pending());
                    return None;
                },
                Some(e) => e,
            };
            proof {
                assert(pk.len() > 0);
                assert(pk[0] == (event_view(e.0), e.1@));
                assert(pk.drop_first() =~= p0.skip(k + 1));
                k = k + 1;
            }
            match capture_step(buf.is_some(), &e.0, target) {
                CaptureAction::Begin => {
                    buf = Some(e.1);
                },
                CaptureAction::Append => {
                    let mut b = buf.unwrap();
                    let mut t = e.1;
                    b.append(&mut t);
                    buf = Some(b);
                },
                CaptureAction::Finish => {
                    let mut b = buf.unwrap();
                    let mut t = e.1;
                    b.append(&mut t);
                    return Some(b);
                },
                CaptureAction::Skip => {},
                CaptureAction::Stop => {
                    return None;
                },
            }
        }
    }

    /// Reads elements named `target` one after another until a reading gives
    /// none: every element, in document order (what lies outside them is
    /// passed over).
    pub fn all_elements(&mut self, target: &Vec<u8>) -> (v: Vec<Vec<u8>>)
        requires
            old(self).wf(),
        ensures
            final(self).wf(),
            v@.map_values(|x: Vec<u8>| x@) == elements_of(old(self).pending(), target@).0,
            final(self).pending() == old(self).pending().skip(
                elements_of(old(self).pending(), target@).1 as int,
            ),
    {
        let ghost p0 = self.pending();
        let ghost mut c: int = 0;
        let mut v: Vec<Vec<u8>> = Vec::new();
        proof {
            assert(p0.skip(0) =~= p0);
            let r = elements_of(p0, target@);
            assert(v@.map_values(|x: Vec<u8>| x@) + r.0 =~= r.0);
        }
        loop
            invariant
                p0 == old(self).pending(),
                self.wf(),
                0 <= c <= p0.len(),
                self.pending() == p0.skip(c),
                elements_of(p0, target@) == ({
                    let r = elements_of(p0.skip(c), target@);
                    (v@.map_values(|x: Vec<u8>| x@) + r.0, (c + r.1) as nat)
                }),
            decreases p0.len() - c,
        {
            let ghost pc = self.pending();
            let ghost before = v@.map_values(|x: Vec<u8>| x@);
            proof {
                lemma_scan_element_bounds(pc, None, target@);
            }
            match self.next_element(target) {
                None => {
                    proof {
                        assert(before + Seq::<Seq<u8>>::empty() =~= before);
                        assert(pc.skip(scan_element(pc, None, target@).1 as int) =~= p0.skip(
                            c + scan_element(pc, None, target@).1,
                        ));
                    }
                    return v;
                },
                Some(x) => {
                    let ghost s1 = scan_element(pc, None, target@).1;
                    v.push(x);
                    proof {
                        assert(pc.skip(s1 as int) =~= p0.skip(c + s1));
                        let r = elements_of(p0.skip(c + s1), target@);
                        assert(v@.map_values(|y: Vec<u8>| y@) =~= before.push(x@));
                        assert(before + (seq![x@] + r.0) =~= before.push(x@) + r.0);
                        c = c + s1;
                    }
                },
            }
        }
    }

    /// The DOCTYPE contents read before the first start tag, end of input or
    /// failure, as `prolog_step` decides event by event.
    fn prolog_doctypes(&mut self) -> (ds: Vec<Vec<u8>>)
        requires
            old(self).wf(),
        ensures
            final(self).wf(),
            ds@.map_values(|d: Vec<u8>| d@) == scan_prolog(old(self).pending()).0,
            final(self).pending() == old(self).pending().skip(scan_prolog(old(self).pending()).1 as int),
    {
        let ghost p0 = self.pending();
        let ghost mut k: int = 0;
        let mut ds: Vec<Vec<u8>> = Vec::new();
        loop
            invariant
                0 <= k <= p0.len(),
                p0 == old(self).pending(),
                self.wf(),
                self.pending() == p0.skip(k),
                scan_prolog(p0) == ({
                    let r = scan_prolog(p0.skip(k));
                    (ds@.map_values(|d: Vec<u8>| d@) + r.0, r.1 + k as nat)
                }),
            decreases p0.len() - k,
        {
            let ghost pk = self.pending();
            let e = match self.step() {
                None => {
                    assert(pk.len() == 0);
                    assert(scan_prolog(pk) == (Seq::<Seq<u8>>::empty(), 0nat));
                    assert(ds@.map_values(|d: Vec<u8>| d@) + Seq::<Seq<u8>>::empty() =~= ds@.map_values(|d: Vec<u8>| d@));
                    assert(p0.skip(k) =~= self.pending());
                    return ds;
                },
                Some(e) => e,
            };
            proof {
                assert(pk.len() > 0);
                assert(pk[0] == (event_view(e.0), e.1@));
                assert(pk.drop_first() =~= p0.skip(k + 1));
                k = k + 1;
            }
            match prolog_step(&e.0) {
                PrologAction::ReadEntities => {
                    let t = e.1;
                    let mut d: Vec<u8> = Vec::new();
                    let mut i: usize = 10;
                    while i < t.len() - 1
                        invariant
                            10 <= i <= t@.len() - 1,
                            t@.len() >= 11,
                            d@ =~= t@.subrange(10, i as int),
                        decreases t.len() - i,
                    {
                        d.push(t[i]);
                        i = i + 1;
                    }
                    let ghost before = ds@.map_values(|x: Vec<u8>| x@);
                    ds.push(d);
                    proof {
                        assert(ds@.map_values(|x: Vec<u8>| x@) =~= before.push(doctype_content(t@)));
                        let r = scan_prolog(p0.skip(k));
                        assert(before + (seq![doctype_content(t@)] + r.0) =~= before.push(doctype_content(t@)) + r.0);
                    }
                },
                PrologAction::Continue => {},
                PrologAction::Stop => {
                    assert(ds@.map_values(|d: Vec<u8>| d@) + Seq::<Seq<u8>>::empty() =~= ds@.map_values(|d: Vec<u8>| d@));
                    return ds;
                },
            }
        }
    }

    /// Reads the entity definitions of every DOCTYPE before the first start
    /// tag (the start tag itself is read too), a later definition of a name
    /// replacing an earlier one. If the definition pattern cannot be
    /// compiled, no entities are read.
    pub fn read_entities(&mut self) -> (r: Vec<(String, String)>)
        requires
            old(self).wf(),
        ensures
            final(self).wf(),
            final(self).pending() == old(self).pending().skip(scan_prolog(old(self).pending()).1 as int),
            regex_compiles(entity_pattern()) ==> captured_entities(
                doctype_captures(scan_prolog(old(self).pending()).0),
                r@,
            ),
            !regex_compiles(entity_pattern()) ==> r@.len() == 0,
    {
        let ds = self.prolog_doctypes();
        let ghost dv = ds@.map_values(|d: Vec<u8>| d@);
        let pattern = "<!ENTITY\\s+(\\S+)\\s+\"([^\"]+)\">";
        proof {
            reveal_strlit("<!ENTITY\\s+(\\S+)\\s+\"([^\"]+)\">");
        }
        let mut caps: Vec<Vec<Option<String>>> = Vec::new();
        let mut i: usize = 0;
        let ghost after = self.pending();
        proof {
            assert(dv.skip(0) =~= dv);
            assert(group_views(caps@) + doctype_captures(dv) =~= doctype_captures(dv));
        }
        while i < ds.len()
            invariant
                i <= ds@.len(),
                self.wf(),
                self.pending() == after,
                after == old(self).pending().skip(scan_prolog(old(self).pending()).1 as int),
                !regex_compiles(entity_pattern()) ==> caps@.len() == 0,
                dv == ds@.map_values(|d: Vec<u8>| d@),
                pattern@ == entity_pattern(),
                regex_compiles(entity_pattern()) ==> group_views(caps@) + doctype_captures(
                    dv.skip(i as int),
                ) == doctype_captures(dv),
            decreases ds.len() - i,
        {
            let text = lossy_text(&ds[i]);
            match regex_capture_groups(pattern, text.as_str()) {
                Ok(mut found) => {
                    let ghost before = group_views(caps@);
                    let ghost fv = group_views(found@);
                    caps.append(&mut found);
                    proof {
                        assert(group_views(caps@) =~= before + fv);
                        assert(dv.skip(i as int).drop_first() =~= dv.skip(i + 1));
                        assert(dv.skip(i as int)[0] == ds@[i as int]@);
                        assert(before + (fv + doctype_captures(dv.skip(i + 1))) =~= (before + fv)
                            + doctype_captures(dv.skip(i + 1)));
                    }
                },
                Err(_) => {
                    return Vec::new();
                },
            }
            i = i + 1;
        }
        proof {
            assert(dv.skip(ds@.len() as int) =~= Seq::<Seq<u8>>::empty());
            assert(group_views(caps@) + Seq::<Seq<Option<Seq<char>>>>::empty() =~= group_views(caps@));
        }
        let r = entities_from_captures(&caps);
        proof {
            if caps@.len() == 0 {
                let pairs = choose|pairs: Seq<(String, String)>|
                    pair_texts(pairs) == entity_pairs(group_views(caps@)) && r@
                        == #[trigger] crate::table::table_from(pairs);
                assert(group_views(caps@) =~= Seq::<Seq<Option<Seq<char>>>>::empty());
                assert(pairs.len() == pair_texts(pairs).len());
                assert(pairs =~= Seq::<(String, String)>::empty());
            }
        }
        r
    }
}

} // verus!
