use acos::plugin::{count_nonblank_lines, is_missing, parse_csv_line, summarize_text, BuiltinRegistry};
use acos::workflow::{count_script_loc, FLAGSHIP_INPUTS};

#[test]
fn summarize_counts_lines_and_chars() {
    let s = summarize_text("alpha\nbeta\ngamma\n");
    assert!(s.contains("3 lines"));
    assert!(s.contains("alpha"));
}

#[test]
fn summary_text_is_exact() {
    assert_eq!(
        summarize_text("alpha\n\n  beta  \ngamma"),
        "Summary: 3 lines, 18 chars. Preview: alpha | beta | gamma"
    );
    assert_eq!(summarize_text(""), "Summary: 0 lines, 0 chars. Preview: ");
}

#[test]
fn summary_preview_keeps_five_lines() {
    let s = summarize_text("a\nb\nc\nd\ne\nf\n");
    assert_eq!(s, "Summary: 6 lines, 6 chars. Preview: a | b | c | d | e");
}

#[test]
fn csv_lines_split_on_unquoted_commas() {
    assert_eq!(parse_csv_line("a, b ,c"), vec!["a", "b", "c"]);
    assert_eq!(parse_csv_line("\"x,y\",z"), vec!["x,y", "z"]);
    assert_eq!(parse_csv_line(""), vec![""]);
}

#[test]
fn missing_sentinels() {
    for v in ["", "NA", "N/A", "NULL", "null", "nan", "-", "  NA  "] {
        assert!(is_missing(v), "{v:?} should be missing");
    }
    assert!(!is_missing("0"));
    assert!(!is_missing("Na"));
}

#[test]
fn builtin_registry_resolves_known_capabilities() {
    let reg = BuiltinRegistry::new();
    assert_eq!(reg.capabilities.len(), 5);
    assert!(reg.resolves("read_file"));
    assert!(reg.resolves("summarize"));
    assert!(!reg.resolves("teleport"));
}

/// A workflow script of the flagship's shape: imports, helpers and a main.
const WORKFLOW_SCRIPT: &str = "\"\"\"Fixed flagship workflow.\n\nReads the four quarterly sales files and writes a markdown report.\n\"\"\"\nimport csv\nimport json\nimport sys\n\n\ndef load(path):\n    rows = []\n    with open(path) as f:\n        for row in csv.DictReader(f):\n            rows.append(row)\n    return rows\n\n\ndef total(rows, column):\n    s = 0.0\n    for r in rows:\n        v = r.get(column, '').replace('$', '').replace(',', '')\n        if v.strip() in ('', 'NA', 'N/A', 'NULL', 'null', 'nan', '-'):\n            continue\n        s += float(v)\n    return s\n\n\ndef missing(rows):\n    n = 0\n    for r in rows:\n        for v in r.values():\n            if v is None or v.strip() == '':\n                n += 1\n    return n\n\n\ndef summarize(path):\n    rows = load(path)\n    return {\n        'file': path,\n        'rows': len(rows),\n        'revenue': total(rows, 'revenue'),\n        'missing': missing(rows),\n    }\n\n\ndef report(files, out):\n    with open(out, 'w') as f:\n        f.write('# Summary\\n\\n')\n        for s in files:\n            f.write('- %s: %d rows, revenue %.2f\\n' % (s['file'], s['rows'], s['revenue']))\n        f.write('\\n# Data Quality\\n\\n')\n        for s in files:\n            f.write('- %s: %d missing values\\n' % (s['file'], s['missing']))\n\n\ndef main():\n    dataset = sys.argv[1]\n    out = sys.argv[2]\n    names = ['sales_q1.csv', 'sales_q2.csv', 'sales_q3.csv', 'sales_q4.csv']\n    files = [summarize(dataset + '/' + n) for n in names]\n    report(files, out)\n    print(json.dumps({'files': files}))\n\n\nif __name__ == '__main__':\n    main()\n";

#[test]
fn script_loc_counts_source() {
    let loc = count_script_loc(WORKFLOW_SCRIPT);
    assert!(loc > 50, "workflow script should be a real program, got {loc} lines");
}

#[test]
fn inputs_declared_cover_flagship() {
    assert_eq!(FLAGSHIP_INPUTS.len(), 4);
    assert!(FLAGSHIP_INPUTS.iter().all(|f| f.starts_with("sales_q")));
}

#[test]
fn script_loc_skips_blank_lines() {
    assert_eq!(count_script_loc("a\n\n   \nb\n"), 2);
    assert_eq!(count_nonblank_lines("\n\n"), 0);
}

fn manifest(id: &str) -> acos::traits::PrimitiveManifest {
    acos::traits::PrimitiveManifest {
        api_version: "acos.io/v1".into(),
        id: id.into(),
        version: "0.1.0".into(),
        capability: id.into(),
        runtime: "builtin".into(),
        command: String::new(),
    }
}

#[test]
fn only_registered_primitives_can_be_loaded() {
    let r = acos::plugin::BuiltinRegistry::new();
    assert!(r.load(&manifest("summarize")).is_ok());
    match r.load(&manifest("teleport")) {
        Err(acos::error::AcosError::ValidationFailure { message }) => {
            assert_eq!(message, "cannot load unknown primitive: teleport")
        }
        _ => panic!("expected a validation failure"),
    }
    assert!(r.unload(acos::types::PrimitiveId(1)).is_ok());
}
