//! Closure based decoding of XML token streams.
//!
//! A caller never sees a close tag: `take_element` hands the opened element
//! to a closure and checks the matching close tag itself once the closure
//! has returned. Nested elements are nested calls, each closing before its
//! opener regains control.

use vstd::prelude::*;

verus! {

//------------ Tokens --------------------------------------------------------

/// One attribute of a start tag, by local name.
#[derive(Clone, Debug, PartialEq, Eq)]
pub struct Attribute {
    pub name: String,
    pub value: String,
}

/// One token of an XML document, with whitespace-only text and comments
/// already left out.
#[derive(Clone, Debug, PartialEq, Eq)]
pub enum XmlEvent {
    StartDocument,
    StartElement { name: String, attributes: Vec<Attribute> },
    EndElement { name: String },
    Characters(String),
    EndDocument,
    /// A token that no operation of the decoder accepts, such as a
    /// processing instruction or a CDATA section.
    Other,
}

/// The tokens after the next one; an exhausted stream stays exhausted.
pub open spec fn skip_one(s: Seq<XmlEvent>) -> Seq<XmlEvent> {
    if s.len() > 0 {
        s.drop_first()
    } else {
        s
    }
}

/// The stream starts with a start tag.
pub open spec fn starts_element(s: Seq<XmlEvent>) -> bool {
    s.len() > 0 && s[0] matches XmlEvent::StartElement { .. }
}

/// The stream starts with the close tag of an element named `name`.
pub open spec fn starts_close(s: Seq<XmlEvent>, name: Seq<char>) -> bool {
    s.len() > 0 && match s[0] {
        XmlEvent::EndElement { name: n } => n@ == name,
        _ => false,
    }
}

/// `t` and `a` are the name and attributes of the start tag `e`.
pub open spec fn opened_by(e: XmlEvent, t: Tag, a: Attributes) -> bool {
    match e {
        XmlEvent::StartElement { name, attributes } => t.name == name && a.entries()
            == attributes@,
        _ => false,
    }
}

/// What an element operation returns, and which tokens remain, once the
/// closure working on an element named `name` has returned `res` with the
/// tokens `inner` left.
pub open spec fn closed_with<T>(
    name: String,
    inner: Seq<XmlEvent>,
    res: Result<T, XmlReaderErr>,
    r: Result<T, XmlReaderErr>,
    after: Seq<XmlEvent>,
) -> bool {
    match res {
        Err(e) => r == Err::<T, XmlReaderErr>(e) && after == inner,
        Ok(v) => after == skip_one(inner) && if starts_close(inner, name@) {
            r == Ok::<T, XmlReaderErr>(v)
        } else {
            r == Err::<T, XmlReaderErr>(XmlReaderErr::ExpectedClose(name))
        },
    }
}

//------------ XmlReader -----------------------------------------------------

/// A reader over the tokens of one XML document.
pub struct XmlReader {
    /// The tokens not yet taken, last one first.
    stack: Vec<XmlEvent>,
}

impl XmlReader {
    /// The tokens not yet taken, in document order.
    pub closed spec fn remaining(&self) -> Seq<XmlEvent> {
        self.stack@.reverse()
    }

    /// A reader over `events`, in the given order.
    pub fn new(events: Vec<XmlEvent>) -> (r: XmlReader)
        ensures
            r.remaining() == events@,
    {
        let ghost orig = events@;
        let mut events = events;
        let mut stack: Vec<XmlEvent> = Vec::new();
        while events.len() > 0
            invariant
                events@.len() <= orig.len(),
                events@ == orig.subrange(0, events@.len() as int),
                stack@ == orig.subrange(events@.len() as int, orig.len() as int).reverse(),
            decreases events@.len(),
        {
            let ghost before = events@.len() as int;
            let e = events.pop().unwrap();
            assert(orig.subrange(before - 1, orig.len() as int) =~= seq![e] + orig.subrange(
                before,
                orig.len() as int,
            ));
            assert(orig.subrange(before - 1, orig.len() as int).reverse() =~= orig.subrange(
                before,
                orig.len() as int,
            ).reverse().push(e));
            stack.push(e);
        }
        assert(orig.subrange(0, orig.len() as int) =~= orig);
        XmlReader { stack }
    }

    /// Takes the next token, if any.
    fn next(&mut self) -> (r: Option<XmlEvent>)
        ensures
            old(self).remaining().len() > 0 ==> r == Some(old(self).remaining()[0]),
            old(self).remaining().len() == 0 ==> r.is_none(),
            final(self).remaining() == skip_one(old(self).remaining()),
    {
        let r = self.stack.pop();
        proof {
            let s = old(self).stack@;
            if s.len() > 0 {
                assert(self.stack@.reverse() =~= s.reverse().drop_first());
            }
        }
        r
    }

    /// Takes the next token and expects the start of the document.
    fn start_document(&mut self) -> (r: Result<(), XmlReaderErr>)
        ensures
            final(self).remaining() == skip_one(old(self).remaining()),
            r is Ok <==> (old(self).remaining().len() > 0 && old(self).remaining()[0]
                is StartDocument),
            r is Err ==> r == Err::<(), XmlReaderErr>(XmlReaderErr::ExpectedStartDocument),
    {
        match self.next() {
            Some(XmlEvent::StartDocument) => Ok(()),
            _ => Err(XmlReaderErr::ExpectedStartDocument),
        }
    }

    /// Takes the next token and expects a start tag.
    fn expect_element(&mut self) -> (r: Result<(Tag, Attributes), XmlReaderErr>)
        ensures
            final(self).remaining() == skip_one(old(self).remaining()),
            r is Ok <==> starts_element(old(self).remaining()),
            match r {
                Ok((t, a)) => opened_by(old(self).remaining()[0], t, a),
                Err(e) => e == XmlReaderErr::ExpectedStart,
            },
    {
        match self.next() {
            Some(XmlEvent::StartElement { name, attributes }) => Ok(
                (Tag { name }, Attributes { attributes }),
            ),
            _ => Err(XmlReaderErr::ExpectedStart),
        }
    }

    /// Takes the next token and expects the close tag of `tag`.
    fn expect_close(&mut self, tag: Tag) -> (r: Result<(), XmlReaderErr>)
        ensures
            final(self).remaining() == skip_one(old(self).remaining()),
            r is Ok <==> starts_close(old(self).remaining(), tag.name@),
            r is Err ==> r == Err::<(), XmlReaderErr>(XmlReaderErr::ExpectedClose(tag.name)),
    {
        match self.next() {
            Some(XmlEvent::EndElement { name }) => {
                if name == tag.name {
                    Ok(())
                } else {
                    Err(XmlReaderErr::ExpectedClose(tag.name))
                }
            },
            _ => Err(XmlReaderErr::ExpectedClose(tag.name)),
        }
    }

    /// Takes the next token and expects the end of the document.
    fn end_document(&mut self) -> (r: Result<(), XmlReaderErr>)
        ensures
            final(self).remaining() == skip_one(old(self).remaining()),
            r is Ok <==> (old(self).remaining().len() > 0 && old(self).remaining()[0]
                is EndDocument),
            r is Err ==> r == Err::<(), XmlReaderErr>(XmlReaderErr::ExpectedEnd),
    {
        match self.next() {
            Some(XmlEvent::EndDocument) => Ok(()),
            _ => Err(XmlReaderErr::ExpectedEnd),
        }
    }

    /// Decodes a whole document.
    ///
    /// Checks that the document starts, hands a reader positioned after
    /// that to `op`, and once `op` has succeeded checks that the document
    /// ends there. Returns what `op` returned.
    pub fn decode<F, T>(events: Vec<XmlEvent>, op: F) -> (r: Result<T, XmlReaderErr>) where
        F: FnOnce(&mut XmlReader) -> Result<T, XmlReaderErr>,
        requires
            forall|x: &mut XmlReader| op.requires((x,)),
        ensures
            !(events@.len() > 0 && events@[0] is StartDocument) ==> r == Err::<
                T,
                XmlReaderErr,
            >(XmlReaderErr::ExpectedStartDocument),
            events@.len() > 0 && events@[0] is StartDocument ==> exists|
                m: &mut XmlReader,
                res: Result<T, XmlReaderErr>,
            |
                m.remaining() == events@.drop_first() && op.ensures((m,), res) && match res {
                    Err(e) => r == Err::<T, XmlReaderErr>(e),
                    Ok(v) => if final(m).remaining().len() > 0 && final(m).remaining()[0]
                        is EndDocument {
                        r == Ok::<T, XmlReaderErr>(v)
                    } else {
                        r == Err::<T, XmlReaderErr>(XmlReaderErr::ExpectedEnd)
                    },
                },
    {
        let mut xml = XmlReader::new(events);
        match xml.start_document() {
            Ok(()) => {},
            Err(e) => {
                return Err(e);
            },
        }
        let res = op(&mut xml);
        match res {
            Ok(v) => match xml.end_document() {
                Ok(()) => Ok(v),
                Err(e) => Err(e),
            },
            Err(e) => Err(e),
        }
    }

    /// Takes an element and processes it in a closure.
    ///
    /// Expects a start tag next, hands its tag and attributes and this
    /// reader to `op`, and once `op` has succeeded expects the close tag
    /// of the same name. Returns what `op` returned.
    pub fn take_element<F, T>(&mut self, op: F) -> (r: Result<T, XmlReaderErr>) where
        F: FnOnce(&Tag, Attributes, &mut XmlReader) -> Result<T, XmlReaderErr>,
        requires
            forall|t: &Tag, a: Attributes, x: &mut XmlReader| op.requires((t, a, x)),
        ensures
            !starts_element(old(self).remaining()) ==> r == Err::<T, XmlReaderErr>(
                XmlReaderErr::ExpectedStart,
            ) && final(self).remaining() == skip_one(old(self).remaining()),
            starts_element(old(self).remaining()) ==> exists|
                t: &Tag,
                a: Attributes,
                m: &mut XmlReader,
                res: Result<T, XmlReaderErr>,
            |
                opened_by(old(self).remaining()[0], *t, a) && m.remaining()
                    == old(self).remaining().drop_first() && op.ensures((t, a, m), res)
                    && closed_with(t.name, final(m).remaining(), res, r, final(self).remaining()),
    {
        let (tag, attr) = match self.expect_element() {
            Ok(x) => x,
            Err(e) => {
                return Err(e);
            },
        };
        let res = op(&tag, attr, self);
        match res {
            Ok(v) => match self.expect_close(tag) {
                Ok(()) => Ok(v),
                Err(e) => Err(e),
            },
            Err(e) => Err(e),
        }
    }

    /// Takes an element named `name` and processes it in a closure.
    ///
    /// As `take_element`, but an element of another name fails with
    /// `ExpectedNamedStart` before `op` is called: only its start tag has
    /// been taken then.
    pub fn take_named_element<F, T>(&mut self, name: &str, op: F) -> (r: Result<
        T,
        XmlReaderErr,
    >) where F: FnOnce(Attributes, &mut XmlReader) -> Result<T, XmlReaderErr>,
        requires
            forall|a: Attributes, x: &mut XmlReader| op.requires((a, x)),
        ensures
            !starts_element(old(self).remaining()) ==> r == Err::<T, XmlReaderErr>(
                XmlReaderErr::ExpectedStart,
            ) && final(self).remaining() == skip_one(old(self).remaining()),
            starts_element(old(self).remaining()) && old(self).remaining()[0]->StartElement_name@
                != name@ ==> final(self).remaining() == old(self).remaining().drop_first() && (
            match r {
                Err(XmlReaderErr::ExpectedNamedStart(n)) => n@ == name@,
                _ => false,
            }),
            starts_element(old(self).remaining()) && old(self).remaining()[0]->StartElement_name@
                == name@ ==> exists|
                a: Attributes,
                m: &mut XmlReader,
                res: Result<T, XmlReaderErr>,
            |
                a.entries() == old(self).remaining()[0]->StartElement_attributes@ && m.remaining()
                    == old(self).remaining().drop_first() && op.ensures((a, m), res)
                    && closed_with(
                    old(self).remaining()[0]->StartElement_name,
                    final(m).remaining(),
                    res,
                    r,
                    final(self).remaining(),
                ),
    {
        let (tag, attr) = match self.expect_element() {
            Ok(x) => x,
            Err(e) => {
                return Err(e);
            },
        };
        let wanted = name.to_owned();
        if !(tag.name == wanted) {
            return Err(XmlReaderErr::ExpectedNamedStart(wanted));
        }
        let res = op(attr, self);
        match res {
            Ok(v) => match self.expect_close(tag) {
                Ok(()) => Ok(v),
                Err(e) => Err(e),
            },
            Err(e) => Err(e),
        }
    }

    /// Takes the next token and expects text, which it returns.
    pub fn take_characters(&mut self) -> (r: Result<String, XmlReaderErr>)
        ensures
            final(self).remaining() == skip_one(old(self).remaining()),
            old(self).remaining().len() > 0 && old(self).remaining()[0] is Characters ==> r
                == Ok::<String, XmlReaderErr>(old(self).remaining()[0]->Characters_0),
            !(old(self).remaining().len() > 0 && old(self).remaining()[0] is Characters) ==> r
                == Err::<String, XmlReaderErr>(XmlReaderErr::ExpectedCharacters),
    {
        match self.next() {
            Some(XmlEvent::Characters(chars)) => Ok(chars),
            _ => Err(XmlReaderErr::ExpectedCharacters),
        }
    }
}

//------------ XmlReaderErr --------------------------------------------------

#[derive(Clone, Debug, PartialEq, Eq)]
pub enum XmlReaderErr {
    ExpectedStartDocument,
    ExpectedStart,
    ExpectedNamedStart(String),
    ExpectedCharacters,
    ExpectedClose(String),
    ExpectedEnd,
    AttributesError(AttributesError),
}

impl From<AttributesError> for XmlReaderErr {
    fn from(e: AttributesError) -> (r: XmlReaderErr)
        ensures
            r == XmlReaderErr::AttributesError(e),
    {
        XmlReaderErr::AttributesError(e)
    }
}

impl vstd::std_specs::convert::FromSpecImpl<AttributesError> for XmlReaderErr {
    open spec fn obeys_from_spec() -> bool {
        true
    }

    open spec fn from_spec(e: AttributesError) -> XmlReaderErr {
        XmlReaderErr::AttributesError(e)
    }
}

//------------ Attributes ----------------------------------------------------

/// The attributes of a start tag, taken one by one by name.
pub struct Attributes {
    attributes: Vec<Attribute>,
}

/// The first position in `s` of an attribute named `name`.
pub open spec fn first_named(s: Seq<Attribute>, name: Seq<char>, i: int) -> bool {
    &&& 0 <= i < s.len()
    &&& s[i].name@ == name
    &&& forall|j: int| 0 <= j < i ==> s[j].name@ != name
}

/// The attributes left after taking the one named `name`, if any.
pub open spec fn without_named(s: Seq<Attribute>, name: Seq<char>) -> Seq<Attribute> {
    if exists|i: int| first_named(s, name, i) {
        s.remove(choose|i: int| first_named(s, name, i))
    } else {
        s
    }
}

/// The attributes left after taking each of `names` in turn.
pub open spec fn without_all(s: Seq<Attribute>, names: Seq<Seq<char>>) -> Seq<Attribute>
    decreases names.len(),
{
    if names.len() == 0 {
        s
    } else {
        without_all(without_named(s, names[0]), names.drop_first())
    }
}

/// Some attribute is named `name`.
pub open spec fn has_named(s: Seq<Attribute>, name: Seq<char>) -> bool {
    exists|j: int| 0 <= j < s.len() && #[trigger] s[j].name@ == name
}

/// No two attributes share a name.
pub open spec fn distinct_names(s: Seq<Attribute>) -> bool {
    forall|i: int, j: int| 0 <= i < j < s.len() ==> s[i].name@ != s[j].name@
}

proof fn lemma_first_named_unique(s: Seq<Attribute>, name: Seq<char>, i: int)
    requires
        first_named(s, name, i),
    ensures
        without_named(s, name) == s.remove(i),
{
    let k = choose|k: int| first_named(s, name, k);
    assert(first_named(s, name, k));
    if k < i {
        assert(s[k].name@ != name);
    } else if i < k {
        assert(s[i].name@ != name);
    }
}

/// Taking, in any order, the name of every attribute of a start tag
/// whose attribute names are distinct leaves none, so that `exhausted`
/// then succeeds.
pub proof fn lemma_drained(s: Seq<Attribute>, names: Seq<Seq<char>>)
    requires
        distinct_names(s),
        names.len() == s.len(),
        forall|i: int, j: int| 0 <= i < j < names.len() ==> names[i] != names[j],
        forall|i: int| 0 <= i < names.len() ==> has_named(s, #[trigger] names[i]),
    ensures
        without_all(s, names).len() == 0,
    decreases names.len(),
{
    if names.len() > 0 {
        let j0 = choose|j: int| 0 <= j < s.len() && s[j].name@ == names[0];
        assert(first_named(s, names[0], j0));
        lemma_first_named_unique(s, names[0], j0);
        let t = s.remove(j0);
        let rest = names.drop_first();
        assert(has_named(s, names[0]));
        assert forall|i: int| 0 <= i < rest.len() implies has_named(t, #[trigger] rest[i]) by {
            assert(names[i + 1] == rest[i]);
            assert(has_named(s, names[i + 1]));
            let j = choose|j: int| 0 <= j < s.len() && s[j].name@ == names[i + 1];
            assert(j != j0);
            if j < j0 {
                assert(t[j] == s[j]);
            } else {
                assert(t[j - 1] == s[j]);
            }
        }
        assert forall|i: int, j: int| 0 <= i < j < rest.len() implies rest[i] != rest[j] by {
            assert(rest[i] == names[i + 1] && rest[j] == names[j + 1]);
        }
        assert forall|a: int, b: int| 0 <= a < b < t.len() implies t[a].name@ != t[b].name@ by {
            let sa = if a < j0 { a } else { a + 1 };
            let sb = if b < j0 { b } else { b + 1 };
            assert(t[a] == s[sa] && t[b] == s[sb]);
        }
        lemma_drained(t, rest);
    }
}

impl Attributes {
    /// The attributes not yet taken.
    pub closed spec fn entries(&self) -> Seq<Attribute> {
        self.attributes@
    }

    /// The attributes `attributes`, none taken yet.
    pub fn new(attributes: Vec<Attribute>) -> (r: Attributes)
        ensures
            r.entries() == attributes@,
    {
        Attributes { attributes }
    }

    /// The number of attributes not yet taken.
    pub fn len(&self) -> (r: usize)
        ensures
            r == self.entries().len(),
    {
        self.attributes.len()
    }

    /// Takes the value of the attribute named `name`, if there is one.
    pub fn take_opt(&mut self, name: &str) -> (r: Option<String>)
        ensures
            r is None <==> forall|i: int|
                0 <= i < old(self).entries().len() ==> #[trigger] old(self).entries()[i].name@
                    != name@,
            r is None ==> final(self).entries() == old(self).entries(),
            r is Some ==> exists|i: int|
                first_named(old(self).entries(), name@, i) && r == Some(
                    old(self).entries()[i].value,
                ) && final(self).entries() == old(self).entries().remove(i),
            final(self).entries() == without_named(old(self).entries(), name@),
    {
        let wanted = name.to_owned();
        let mut i: usize = 0;
        while i < self.attributes.len()
            invariant
                self.attributes@ == old(self).attributes@,
                wanted@ == name@,
                i <= self.attributes@.len(),
                forall|j: int| 0 <= j < i ==> #[trigger] self.attributes@[j].name@ != name@,
            decreases self.attributes@.len() - i,
        {
            if self.attributes[i].name == wanted {
                assert(first_named(old(self).entries(), name@, i as int));
                assert(old(self).entries()[i as int].name@ == name@);
                proof {
                    lemma_first_named_unique(old(self).entries(), name@, i as int);
                }
                let a = self.attributes.remove(i);
                return Some(a.value);
            }
            i = i + 1;
        }
        None
    }

    /// Takes the value of the attribute named `name`, which must be there.
    pub fn take_req(&mut self, name: &str) -> (r: Result<String, AttributesError>)
        ensures
            r is Err <==> forall|i: int|
                0 <= i < old(self).entries().len() ==> #[trigger] old(self).entries()[i].name@
                    != name@,
            r is Err ==> final(self).entries() == old(self).entries() && match r {
                Err(AttributesError::MissingAttribute(n)) => n@ == name@,
                _ => false,
            },
            r is Ok ==> exists|i: int|
                first_named(old(self).entries(), name@, i) && r == Ok::<
                    String,
                    AttributesError,
                >(old(self).entries()[i].value) && final(self).entries()
                    == old(self).entries().remove(i),
            final(self).entries() == without_named(old(self).entries(), name@),
    {
        match self.take_opt(name) {
            Some(v) => Ok(v),
            None => Err(AttributesError::MissingAttribute(name.to_owned())),
        }
    }

    /// Checks that every attribute has been taken.
    pub fn exhausted(&self) -> (r: Result<(), AttributesError>)
        ensures
            r is Ok <==> self.entries().len() == 0,
            r is Err ==> r == Err::<(), AttributesError>(AttributesError::ExtraAttributes),
    {
        if self.attributes.len() > 0 {
            return Err(AttributesError::ExtraAttributes);
        }
        Ok(())
    }
}

//------------ AttributesError -----------------------------------------------

#[derive(Clone, Debug, PartialEq, Eq)]
pub enum AttributesError {
    MissingAttribute(String),
    ExtraAttributes,
}

//------------ Tag -----------------------------------------------------------

/// The local name of an open element.
pub struct Tag {
    pub name: String,
}

} // verus!
