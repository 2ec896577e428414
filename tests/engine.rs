use iterations::{
    find_delimiter, record_of, split_record, x_range, Aggregator, GroupTable, HashPolicy,
    Iteration, RecordError, ReportError,
};

const ALL: [Iteration; 3] = [
    Iteration::Base,
    Iteration::ByteFileParsing,
    Iteration::AhashHashFunction,
];

struct Station {
    count: u64,
    max: f64,
    min: f64,
    sum: f64,
}

impl Station {
    fn render(&self) -> String {
        format!(
            "{:.1}/{:.1}/{:.1}",
            self.min,
            (self.sum * 10.0 / self.count as f64).round() / 10.0 + 0.0,
            self.max
        )
    }
}

/// Runs the engine over `input` as a line reader would hand it out.
fn run(iteration: Iteration, input: &[u8]) -> Result<String, String> {
    let mut agg = Aggregator::new(iteration);
    let mut stations: Vec<Station> = Vec::new();
    for chunk in input.split_inclusive(|&b| b == b'\n') {
        let line = record_of(chunk);
        let (group, value) = agg.ingest(&line).map_err(|e| format!("{e:?}"))?;
        let t: f64 = std::str::from_utf8(&value)
            .map_err(|_| "value".to_string())?
            .parse()
            .map_err(|_| "temperature should be a float".to_string())?;
        if group == stations.len() {
            stations.push(Station { count: 1, max: t, min: t, sum: t });
        } else {
            let s = &mut stations[group];
            s.count += 1;
            s.sum += t;
            s.max = s.max.max(t);
            s.min = s.min.min(t);
        }
    }
    let stats: Vec<Vec<u8>> = stations.iter().map(|s| s.render().into_bytes()).collect();
    let out = agg.report(&stats).map_err(|e| format!("{e:?}"))?;
    Ok(String::from_utf8(out).unwrap())
}

#[test]
fn end_to_end_example() {
    for it in ALL {
        assert_eq!(
            run(it, b"Hamburg;12.0\nHamburg;8.0\nBerlin;5.0\n").unwrap(),
            "{Berlin: 5.0/5.0/5.0, Hamburg: 8.0/10.0/12.0}"
        );
    }
}

#[test]
fn variants_agree() {
    let input = b"Oslo;-3.5\nAbha;20.1\nOslo;1.2\nZ\xc3\xbcrich;9.9\nAbha;-0.4\nOslo;0.0\nabc;1\nAbc;2e1";
    let base = run(Iteration::Base, input).unwrap();
    for it in ALL {
        assert_eq!(run(it, input).unwrap(), base);
    }
    assert_eq!(
        base,
        "{Abc: 20.0/20.0/20.0, Abha: -0.4/9.9/20.1, Oslo: -3.5/-0.8/1.2, Z\u{fc}rich: 9.9/9.9/9.9, abc: 1.0/1.0/1.0}"
    );
}

#[test]
fn same_variant_twice() {
    let input = b"b;1.0\na;2.0\nc;3.0\na;4.0\n";
    for it in ALL {
        assert_eq!(run(it, input).unwrap(), run(it, input).unwrap());
    }
}

#[test]
fn keys_ascend_bytewise_once_each() {
    let out = run(Iteration::AhashHashFunction, b"b;1\nB;2\na;3\nab;4\nb;5\n").unwrap();
    assert_eq!(out, "{B: 2.0/2.0/2.0, a: 3.0/3.0/3.0, ab: 4.0/4.0/4.0, b: 1.0/3.0/5.0}");
}

#[test]
fn negative_zero_mean_is_positive() {
    assert_eq!(run(Iteration::Base, b"x;-0.05\nx;0.05\n").unwrap(), "{x: -0.1/0.0/0.1}");
    assert_eq!(run(Iteration::Base, b"x;-0.04\n").unwrap(), "{x: -0.0/0.0/-0.0}");
}

#[test]
fn single_observation() {
    assert_eq!(run(Iteration::ByteFileParsing, b"Paris;7.3").unwrap(), "{Paris: 7.3/7.3/7.3}");
}

#[test]
fn unterminated_final_line() {
    for it in ALL {
        assert_eq!(run(it, b"a;1.0\na;3.0").unwrap(), "{a: 1.0/2.0/3.0}");
    }
    assert_eq!(record_of(b"a;3.0"), b"a;3.0".to_vec());
    assert_eq!(record_of(b"a;3.0\n"), b"a;3.0".to_vec());
    assert_eq!(record_of(b"\n"), Vec::<u8>::new());
}

#[test]
fn split_on_first_delimiter() {
    let (k, v) = split_record(b"A;B;1.0").unwrap();
    assert_eq!(k, b"A".to_vec());
    assert_eq!(v, b"B;1.0".to_vec());
    assert!("B;1.0".parse::<f64>().is_err());
    assert_eq!(
        run(Iteration::Base, b"A;B;1.0\n"),
        Err("temperature should be a float".to_string())
    );
    assert_eq!(find_delimiter(b"ab;c;d"), Some(2));
    assert_eq!(find_delimiter(b";"), Some(0));
}

#[test]
fn missing_delimiter() {
    assert_eq!(split_record(b"Hamburg 12.0"), None);
    assert_eq!(find_delimiter(b""), None);
    let mut agg = Aggregator::new(Iteration::ByteFileParsing);
    assert_eq!(agg.ingest(b"Hamburg 12.0"), Err(RecordError::MissingDelimiter));
    assert_eq!(agg.len(), 0);
}

#[test]
fn invalid_text_line_in_text_variant() {
    let mut agg = Aggregator::new(Iteration::Base);
    assert_eq!(agg.ingest(b"\xffx;1.0"), Err(RecordError::NotText));
    assert_eq!(agg.len(), 0);
}

#[test]
fn invalid_key_found_at_report() {
    for it in [Iteration::ByteFileParsing, Iteration::AhashHashFunction] {
        let mut agg = Aggregator::new(it);
        assert_eq!(agg.ingest(b"ok;1.0").unwrap(), (0, b"1.0".to_vec()));
        assert_eq!(agg.ingest(b"\xff;2.0").unwrap(), (1, b"2.0".to_vec()));
        let stats = vec![b"1.0/1.0/1.0".to_vec(), b"2.0/2.0/2.0".to_vec()];
        assert_eq!(agg.report(&stats), Err(ReportError::KeyNotText));
    }
}

#[test]
fn groups_numbered_by_first_appearance() {
    for policy in [HashPolicy::Strong, HashPolicy::Fast] {
        let mut t = GroupTable::new(policy);
        assert_eq!(t.observe(b"x"), 0);
        assert_eq!(t.observe(b"y"), 1);
        assert_eq!(t.observe(b"x"), 0);
        assert_eq!(t.observe(b""), 2);
        assert_eq!(t.observe(b"y"), 1);
        assert_eq!(t.len(), 3);
        assert_eq!(t.key(1), b"y");
        assert_eq!(t.sorted_order(), vec![2, 0, 1]);
    }
}

#[test]
fn empty_input_reports_braces() {
    for it in ALL {
        assert_eq!(run(it, b"").unwrap(), "{}");
    }
}

#[test]
fn axis_range_from_inputs() {
    let xs = vec![1000, 10, 100000, 500];
    assert_eq!(x_range(&xs, None, None), (10, 100000));
    assert_eq!(x_range(&xs, Some(1), None), (1, 100000));
    assert_eq!(x_range(&xs, None, Some(7)), (10, 7));
    assert_eq!(x_range(&vec![-3], None, None), (-3, -3));
}
