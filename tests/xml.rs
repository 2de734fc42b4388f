use rpki::xml::{Attribute, Attributes, AttributesError, XmlEvent, XmlReader, XmlReaderErr};

fn start(name: &str, attrs: &[(&str, &str)]) -> XmlEvent {
    XmlEvent::StartElement {
        name: name.to_string(),
        attributes: attrs
            .iter()
            .map(|(n, v)| Attribute { name: n.to_string(), value: v.to_string() })
            .collect(),
    }
}

fn end(name: &str) -> XmlEvent {
    XmlEvent::EndElement { name: name.to_string() }
}

fn text(s: &str) -> XmlEvent {
    XmlEvent::Characters(s.to_string())
}

#[test]
fn decodes_nested_elements() {
    let events = vec![
        XmlEvent::StartDocument,
        start("msg", &[("version", "1")]),
        start("item", &[]),
        text("hello"),
        end("item"),
        end("msg"),
        XmlEvent::EndDocument,
    ];
    let res = XmlReader::decode(events, |r| {
        r.take_named_element("msg", |mut a, r| {
            let v = a.take_req("version")?;
            a.exhausted()?;
            let t = r.take_named_element("item", |_, r| r.take_characters())?;
            Ok((v, t))
        })
    });
    assert_eq!(res, Ok(("1".to_string(), "hello".to_string())));
}

#[test]
fn take_element_passes_the_tag() {
    let mut r = XmlReader::new(vec![start("a", &[]), end("a")]);
    let res = r.take_element(|t, _, _| Ok(t.name.clone()));
    assert_eq!(res, Ok("a".to_string()));
}

#[test]
fn named_element_mismatch_leaves_the_body() {
    let mut r = XmlReader::new(vec![start("A", &[]), text("body"), end("A")]);
    let res: Result<(), XmlReaderErr> = r.take_named_element("B", |_, r| {
        r.take_characters()?;
        Ok(())
    });
    assert_eq!(res, Err(XmlReaderErr::ExpectedNamedStart("B".to_string())));
    assert_eq!(r.take_characters(), Ok("body".to_string()));
}

#[test]
fn wrong_close_tag_does_not_resynchronise() {
    let mut r = XmlReader::new(vec![start("a", &[]), end("b"), end("a")]);
    let res = r.take_element(|_, _, _| Ok(()));
    assert_eq!(res, Err(XmlReaderErr::ExpectedClose("a".to_string())));
    let next = r.take_element(|_, _, _| Ok(()));
    assert_eq!(next, Err(XmlReaderErr::ExpectedStart));
}

#[test]
fn unclosed_body_fails_close_check() {
    let mut r = XmlReader::new(vec![start("a", &[]), text("x"), end("a")]);
    let res = r.take_element(|_, _, _| Ok(()));
    assert_eq!(res, Err(XmlReaderErr::ExpectedClose("a".to_string())));
}

#[test]
fn document_framing_errors() {
    let res = XmlReader::decode(vec![start("a", &[]), end("a")], |r| r.take_element(|_, _, _| Ok(())));
    assert_eq!(res, Err(XmlReaderErr::ExpectedStartDocument));
    let res = XmlReader::decode(
        vec![XmlEvent::StartDocument, start("a", &[]), end("a"), start("b", &[])],
        |r| r.take_element(|_, _, _| Ok(())),
    );
    assert_eq!(res, Err(XmlReaderErr::ExpectedEnd));
    let res = XmlReader::decode(vec![XmlEvent::StartDocument, XmlEvent::EndDocument], |r| {
        r.take_characters()
    });
    assert_eq!(res, Err(XmlReaderErr::ExpectedCharacters));
}

#[test]
fn closure_error_propagates_without_close_check() {
    let mut r = XmlReader::new(vec![start("a", &[]), end("a")]);
    let res: Result<(), XmlReaderErr> = r.take_element(|_, _, _| Err(XmlReaderErr::ExpectedEnd));
    assert_eq!(res, Err(XmlReaderErr::ExpectedEnd));
}

#[test]
fn attributes_must_be_exhausted() {
    let mut a = Attributes::new(vec![
        Attribute { name: "x".to_string(), value: "1".to_string() },
        Attribute { name: "y".to_string(), value: "2".to_string() },
    ]);
    assert_eq!(a.take_req("y"), Ok("2".to_string()));
    assert_eq!(a.exhausted(), Err(AttributesError::ExtraAttributes));
    assert_eq!(a.take_opt("y"), None);
    assert_eq!(a.take_req("z"), Err(AttributesError::MissingAttribute("z".to_string())));
    assert_eq!(a.take_opt("x"), Some("1".to_string()));
    assert_eq!(a.len(), 0);
    assert_eq!(a.exhausted(), Ok(()));
}

#[test]
fn attribute_errors_convert() {
    let e: XmlReaderErr = AttributesError::ExtraAttributes.into();
    assert_eq!(e, XmlReaderErr::AttributesError(AttributesError::ExtraAttributes));
}

#[test]
fn attributes_drain_in_any_order() {
    let mut a = Attributes::new(vec![
        Attribute { name: "a".to_string(), value: "1".to_string() },
        Attribute { name: "b".to_string(), value: "2".to_string() },
        Attribute { name: "c".to_string(), value: "3".to_string() },
    ]);
    assert_eq!(a.take_opt("c"), Some("3".to_string()));
    assert_eq!(a.take_req("a"), Ok("1".to_string()));
    assert_eq!(a.exhausted(), Err(AttributesError::ExtraAttributes));
    assert_eq!(a.take_opt("b"), Some("2".to_string()));
    assert_eq!(a.exhausted(), Ok(()));
}
