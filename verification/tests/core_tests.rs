use lhef::{
    BlockKind, ParseError, Reader, VecSink, WriteError, Writer, WriterOp, WriterState, XmlAttr,
    XmlTree, HEPEUP, HEPRUP,
};

fn tok(x: f64) -> Vec<u8> {
    ryu::Buffer::new().format(x).as_bytes().to_vec()
}

fn sample_heprup() -> HEPRUP {
    HEPRUP {
        IDBMUP: [2212, 2212],
        EBMUP: [tok(7000.0), tok(7000.0)],
        PDFGUP: [0, 0],
        PDFSUP: [230000, 230000],
        IDWTUP: 2,
        NPRUP: 1,
        XSECUP: vec![tok(120588124.02)],
        XERRUP: vec![tok(702517.48228)],
        XMAXUP: vec![tok(94290.49)],
        LPRUP: vec![1],
        info: Vec::new(),
        attr: XmlAttr::new(),
    }
}

fn sample_hepeup() -> HEPEUP {
    HEPEUP {
        NUP: 4,
        IDRUP: 1,
        XWGTUP: tok(84515.12),
        SCALUP: tok(91.188),
        AQEDUP: tok(0.007546771),
        AQCDUP: tok(0.1190024),
        IDUP: vec![1, 21, 21, 1],
        ISTUP: vec![-1, -1, 1, 1],
        MOTHUP: vec![[0, 0], [0, 0], [1, 2], [1, 2]],
        ICOLUP: vec![[503, 0], [501, 502], [503, 502], [501, 0]],
        PUP: vec![
            [tok(0.0), tok(0.0), tok(4.7789443449), tok(4.7789443449), tok(0.0)],
            [tok(0.0), tok(0.0), tok(-1240.3761329), tok(1240.3761329), tok(0.0)],
            [
                tok(37.283715118),
                tok(21.98166528),
                tok(-1132.689358),
                tok(1133.5159684),
                tok(0.0),
            ],
            [
                tok(-37.283715118),
                tok(-21.98166528),
                tok(-102.90783056),
                tok(111.63910879),
                tok(0.0),
            ],
        ],
        VTIMUP: vec![tok(0.0), tok(0.0), tok(0.0), tok(0.0)],
        SPINUP: vec![tok(1.0), tok(-1.0), tok(-1.0), tok(1.0)],
        info: b"<mgrwt>\n<rscale>  2 0.91188000E+02</rscale>\n<asrwt>0</asrwt>\n<totfact> 0.49322010E+04</totfact>\n</mgrwt>\n"
            .to_vec(),
        attr: XmlAttr::new(),
    }
}

#[test]
fn write() {
    let heprup = sample_heprup();
    let hepeup = sample_hepeup();
    let mut writer = Writer::new(VecSink::new(), b"1.0").unwrap();
    writer.header(b"some header").unwrap();
    let header = {
        let mut attr = XmlAttr::new();
        attr.insert(b"attr0".to_vec(), b"val0".to_vec());
        attr.insert(b"attr1".to_vec(), b"".to_vec());
        XmlTree {
            name: b"header".to_vec(),
            attributes: attr,
            children: vec![],
            text: Some(b"some xml header".to_vec()),
        }
    };
    writer.xml_header(&header).unwrap();
    writer.heprup(&heprup).unwrap();
    writer.hepeup(&hepeup).unwrap();
    writer.finish().unwrap();
}

#[test]
fn round_trip_fields_and_bytes() {
    let heprup = {
        let mut h = sample_heprup();
        let mut attr = XmlAttr::new();
        attr.insert(b"testattribute".to_vec(), b"testvalue".to_vec());
        h.attr = attr;
        h.info = b"run info tail\n".to_vec();
        h
    };
    let hepeup = {
        let mut e = sample_hepeup();
        let mut attr = XmlAttr::new();
        attr.insert(b"attr0".to_vec(), b"t0".to_vec());
        attr.insert(b"attr1".to_vec(), b"".to_vec());
        e.attr = attr;
        e
    };
    let mut writer = Writer::new(VecSink::new(), b"3.0").unwrap();
    writer.header(b"comment text\nsecond line\n").unwrap();
    writer.heprup(&heprup).unwrap();
    writer.hepeup(&hepeup).unwrap();
    writer.hepeup(&hepeup).unwrap();
    writer.finish().unwrap();
    let bytes = writer.into_sink();
    let mut reader = Reader::new(bytes.bytes()).unwrap();
    assert_eq!(reader.version(), &b"3.0".to_vec());
    assert_eq!(reader.header(), &b"comment text\nsecond line\n".to_vec());
    assert!(reader.xml_header().is_none());
    assert_eq!(reader.heprup(), &heprup);
    let e1 = reader.hepeup().unwrap().unwrap();
    let e2 = reader.hepeup().unwrap().unwrap();
    assert_eq!(e1, hepeup);
    assert_eq!(e2, hepeup);
    assert_eq!(reader.hepeup().unwrap(), None);
    // Writing the parsed records again reproduces the byte stream exactly.
    let mut writer2 = Writer::new(VecSink::new(), reader.version()).unwrap();
    writer2.header(reader.header()).unwrap();
    writer2.heprup(reader.heprup()).unwrap();
    writer2.hepeup(&e1).unwrap();
    writer2.hepeup(&e2).unwrap();
    writer2.finish().unwrap();
    let bytes2 = writer2.into_sink();
    assert_eq!(bytes.bytes(), bytes2.bytes());
}

#[test]
fn concrete_scenario_bitexact() {
    let heprup = sample_heprup();
    let hepeup = sample_hepeup();
    let mut writer = Writer::new(VecSink::new(), b"1.0").unwrap();
    writer.heprup(&heprup).unwrap();
    writer.hepeup(&hepeup).unwrap();
    writer.finish().unwrap();
    let sink = writer.into_sink();
    let mut reader = Reader::new(sink.bytes()).unwrap();
    assert_eq!(reader.heprup().XSECUP, vec![tok(120588124.02)]);
    let back: f64 = fast_float::parse(&reader.heprup().XSECUP[0]).unwrap();
    assert_eq!(back.to_bits(), 120588124.02f64.to_bits());
    let xerr: f64 = fast_float::parse(&reader.heprup().XERRUP[0]).unwrap();
    assert_eq!(xerr.to_bits(), 702517.48228f64.to_bits());
    let event = reader.hepeup().unwrap().unwrap();
    assert_eq!(event.IDUP, vec![1, 21, 21, 1]);
    let w: f64 = fast_float::parse(&event.XWGTUP).unwrap();
    assert_eq!(w.to_bits(), 84515.12f64.to_bits());
    assert_eq!(reader.hepeup().unwrap(), None);
    assert_eq!(reader.hepeup().unwrap(), None);
}

#[test]
fn count_mismatch_writes_nothing() {
    let mut bad = sample_heprup();
    bad.NPRUP = 2;
    let mut writer = Writer::new(VecSink::new(), b"1.0").unwrap();
    assert_eq!(writer.heprup(&bad), Err(WriteError::MismatchedSubprocesses));
    let mut bad_event = sample_hepeup();
    bad_event.IDUP.pop();
    let good = sample_heprup();
    writer.heprup(&good).unwrap();
    let len_before = {
        let mut probe = Writer::new(VecSink::new(), b"1.0").unwrap();
        probe.heprup(&good).unwrap();
        probe.into_sink().bytes().len()
    };
    assert_eq!(writer.hepeup(&bad_event), Err(WriteError::MismatchedParticles));
    writer.finish().unwrap();
    let sink = writer.into_sink();
    // the only bytes are the version line, the init block and the close line
    let close = b"</LesHouchesEvents>\n";
    assert_eq!(sink.bytes().len(), len_before + close.len());
}

#[test]
fn state_protocol_event_before_run_info() {
    let mut writer = Writer::new(VecSink::new(), b"1.0").unwrap();
    let before = writer.into_sink();
    let len0 = before.bytes().len();
    let mut writer = Writer::new(VecSink::new(), b"1.0").unwrap();
    let event = sample_hepeup();
    assert_eq!(
        writer.hepeup(&event),
        Err(WriteError::BadState(WriterState::ExpectingHeaderOrInit, WriterOp::Event))
    );
    assert_eq!(
        writer.finish(),
        Err(WriteError::BadState(WriterState::ExpectingHeaderOrInit, WriterOp::Finish))
    );
    let sink = writer.into_sink();
    assert_eq!(sink.bytes().len(), len0);
}

#[test]
fn implicit_finish_on_close() {
    let mut writer = Writer::new(VecSink::new(), b"2.0").unwrap();
    writer.heprup(&sample_heprup()).unwrap();
    writer.hepeup(&sample_hepeup()).unwrap();
    writer.close();
    let sink = writer.into_sink();
    let bytes = sink.bytes();
    let close = b"</LesHouchesEvents>\n";
    assert!(bytes.len() >= close.len());
    assert_eq!(&bytes[bytes.len() - close.len()..], close);
    // and the closed stream reads back whole
    let mut reader = Reader::new(bytes).unwrap();
    let _ = reader.hepeup().unwrap().unwrap();
    assert_eq!(reader.hepeup().unwrap(), None);
}

#[test]
fn version_gate() {
    let bad = b"<LesHouchesEvents version=\"4.0\">\n</LesHouchesEvents>\n";
    match Reader::new(bad) {
        Err(ParseError::UnsupportedVersion(v)) => assert_eq!(v, b"4.0".to_vec()),
        other => panic!("expected an unsupported-version error, got {:?}", other.is_ok()),
    }
    let missing = b"<LesHouchesEvents version=\n";
    match Reader::new(missing) {
        Err(ParseError::MissingVersion) => {},
        other => panic!("expected a missing-version error, got {:?}", other.is_ok()),
    }
    let garbled = b"<lesHouchesEvents version=\"1.0\">\n";
    assert!(matches!(Reader::new(garbled), Err(ParseError::BadFirstLine(_))));
}

#[test]
fn read_errors() {
    // unrecognized header line
    let t = b"<LesHouchesEvents version=\"1.0\">\nnonsense\n";
    assert!(matches!(Reader::new(t), Err(ParseError::BadHeaderStart(_))));
    // missing field on the run line
    let t = b"<LesHouchesEvents version=\"1.0\">\n<init>\n1 2 3.0 4.0 5 6\n</init>\n";
    match Reader::new(t) {
        Err(ParseError::MissingEntry(name)) => assert_eq!(name, b"PDFSUP(1)".to_vec()),
        _ => panic!("expected a missing-entry error"),
    }
    // a field that is not a number
    let t = b"<LesHouchesEvents version=\"1.0\">\n<init>\n1 2 x 4.0 5 6 7 8 9 1\n</init>\n";
    match Reader::new(t) {
        Err(ParseError::ConversionError(tk)) => assert_eq!(tk, b"x".to_vec()),
        _ => panic!("expected a conversion error"),
    }
    // run block never closed
    let t = b"<LesHouchesEvents version=\"1.0\">\n<init>\n1 2 3.0 4.0 5 6 7 8 9 0\ntail\n";
    assert!(matches!(Reader::new(t), Err(ParseError::EndOfFile(BlockKind::Init))));
    // malformed attributes on the run tag
    let t = b"<LesHouchesEvents version=\"1.0\">\n<init a=1>\n1 2 3.0 4.0 5 6 7 8 9 0\n</init>\n";
    assert!(matches!(Reader::new(t), Err(ParseError::BadXmlTag(_))));
    // an event that opens with neither an event tag nor the end marker
    let t = b"<LesHouchesEvents version=\"1.0\">\n<init>\n1 2 3.0 4.0 5 6 7 8 9 0\n</init>\njunk\n";
    let mut reader = Reader::new(t).unwrap();
    assert!(matches!(reader.hepeup(), Err(ParseError::BadEventStart(_))));
}

#[test]
fn header_and_event_errors() {
    // a comment mark with trailing text on its own line
    let t = b"<LesHouchesEvents version=\"1.0\">\n<!-- inline comment -->\n";
    assert!(matches!(Reader::new(t), Err(ParseError::BadHeaderStart(_))));
    // a comment block never closed
    let t = b"<LesHouchesEvents version=\"1.0\">\n<!--\nstill open\n";
    assert!(matches!(Reader::new(t), Err(ParseError::EndOfFile(BlockKind::Header))));
    // a structured sub-header whose text is not an element tree
    let t =
        b"<LesHouchesEvents version=\"1.0\">\n<header>\n<oops\n</header>\n<init>\n1 2 3.0 4.0 5 6 7 8 9 0\n</init>\n";
    assert!(matches!(Reader::new(t), Err(ParseError::BadXmlHeader(_))));
    // an event block never closed
    let t =
        b"<LesHouchesEvents version=\"1.0\">\n<init>\n1 2 3.0 4.0 5 6 7 8 9 0\n</init>\n<event>\n0 1 1.0 1.0 1.0 1.0\n";
    let mut reader = Reader::new(t).unwrap();
    assert!(matches!(reader.hepeup(), Err(ParseError::EndOfFile(BlockKind::Event))));
}

#[test]
fn xml_header_through_external_parser() {
    let mut writer = Writer::new(VecSink::new(), b"1.0").unwrap();
    let tree = {
        let mut attr = XmlAttr::new();
        attr.insert(b"attr0".to_vec(), b"val0".to_vec());
        XmlTree {
            name: b"header".to_vec(),
            attributes: attr,
            children: vec![],
            text: Some(b"some xml header".to_vec()),
        }
    };
    writer.xml_header(&tree).unwrap();
    writer.heprup(&sample_heprup()).unwrap();
    writer.finish().unwrap();
    let sink = writer.into_sink();
    let reader = Reader::new(sink.bytes()).unwrap();
    let back = reader.xml_header().as_ref().expect("a sub-header tree");
    assert_eq!(back.name, b"header".to_vec());
    assert_eq!(
        back.attributes.get(b"attr0").expect("attribute kept"),
        &b"val0".to_vec()
    );
    assert!(back.children.is_empty());
}

#[test]
fn attributes_round_trip_on_tags() {
    let mut h = sample_heprup();
    let mut attr = XmlAttr::new();
    attr.insert(b"beam".to_vec(), b"p p".to_vec());
    attr.insert(b"note".to_vec(), b"with 'single' quotes".to_vec());
    h.attr = attr;
    let mut writer = Writer::new(VecSink::new(), b"1.0").unwrap();
    writer.heprup(&h).unwrap();
    writer.finish().unwrap();
    let sink = writer.into_sink();
    let reader = Reader::new(sink.bytes()).unwrap();
    assert_eq!(reader.heprup().attr.get(b"beam").unwrap(), &b"p p".to_vec());
    assert_eq!(
        reader.heprup().attr.get(b"note").unwrap(),
        &b"with 'single' quotes".to_vec()
    );
    assert!(reader.heprup().attr.get(b"absent").is_none());
    assert_eq!(reader.heprup().attr.len(), 2);
}

#[test]
fn error_messages() {
    assert_eq!(
        ParseError::MissingVersion.message(),
        "version information missing"
    );
    assert_eq!(
        WriteError::MismatchedSubprocesses.message(),
        "subprocess count disagrees with a per-subprocess sequence length"
    );
}
