use mi_compiler::inclusion::{
    chars_of, expand, include_directives, include_path, parent_dir, splice,
};
use mi_compiler::source::ParseET;

#[test]
fn chars_are_listed_in_order() {
    assert_eq!(chars_of("aé\n"), vec!['a', 'é', '\n']);
    assert_eq!(chars_of(""), Vec::<char>::new());
}

#[test]
fn parent_dir_is_what_stands_before_the_last_slash() {
    assert_eq!(parent_dir("testing/fibonacci.mi"), "testing");
    assert_eq!(parent_dir("a/b/c.mi"), "a/b");
    assert_eq!(parent_dir("main.mi"), ".");
    assert_eq!(parent_dir("/main.mi"), "");
    assert_eq!(parent_dir("dir/"), "dir");
    assert_eq!(parent_dir(""), ".");
}

#[test]
fn include_path_joins_directory_and_name() {
    assert_eq!(include_path("testing", "std"), "testing/./std.mi");
    assert_eq!(include_path("testing", "lib/io"), "testing/lib/io.mi");
    assert_eq!(include_path(".", "a/b/c"), "./a/b/c.mi");
    assert_eq!(include_path("src", "../shared/x"), "src/../shared/x.mi");
}

#[test]
fn directives_are_the_lines_that_open_with_the_word() {
    let text = "#include std\nfn main do\n  #include not_at_line_start\nend\n#include lib/io\n";
    assert_eq!(include_directives(text), vec!["std".to_string(), "lib/io".to_string()]);
    assert_eq!(include_directives(""), Vec::<String>::new());
    assert_eq!(include_directives("fn main do end"), Vec::<String>::new());
    assert_eq!(include_directives("#include"), Vec::<String>::new());
    assert_eq!(include_directives("#include "), vec!["".to_string()]);
    assert_eq!(include_directives("#include last"), vec!["last".to_string()]);
    assert_eq!(include_directives("#include a\n#include a"), vec!["a".to_string(), "a".to_string()]);
}

#[test]
fn directives_lose_the_carriage_return_before_a_line_feed() {
    assert_eq!(include_directives("#include a\r\n#include b\r"), vec!["a".to_string(), "b\r".to_string()]);
    assert_eq!(include_directives("\r\n#include x y\r\n"), vec!["x y".to_string()]);
}

#[test]
fn directives_agree_with_the_lines_of_the_text() {
    for text in ["#include a\n\n#include b\r\nrest", "x\n#include é\n", "#include a\r\n", "\n\n#include q"] {
        let want: Vec<String> = text
            .lines()
            .filter(|l| l.starts_with("#include "))
            .map(|l| l.split_at(9).1.to_string())
            .collect();
        assert_eq!(include_directives(text), want, "{text:?}");
    }
}

#[test]
fn splice_puts_the_file_in_the_place_of_each_directive() {
    let text = "#include std\nfn main do end\n#include std\n";
    assert_eq!(
        splice(text, "std", "extern fn puts with ptr s end"),
        "extern fn puts with ptr s end\nfn main do end\nextern fn puts with ptr s end\n"
    );
    assert_eq!(splice("a #include x b", "x", "<>"), "a <> b");
    assert_eq!(splice("no directive", "x", "<>"), "no directive");
    assert_eq!(splice("", "x", "<>"), "");
    assert_eq!(splice("#include x", "x", ""), "");
    assert_eq!(splice("#include xy", "x", "<>"), "<>y");
    assert_eq!(splice("#include #include x", "x", "é"), "#include é");
}

#[test]
fn splice_agrees_with_replacing_the_directive() {
    for (text, incl, content) in [
        ("#include a\n#include ab\n", "a", "A"),
        ("##include z#include z", "z", "#include z"),
        ("#include \n", "", "empty"),
        ("é#include é", "é", "ü"),
    ] {
        assert_eq!(
            splice(text, incl, content),
            text.replace(&format!("#include {incl}"), content),
            "{text:?}"
        );
    }
}

fn files(pairs: &[(&str, &str)]) -> Vec<(String, String)> {
    pairs.iter().map(|(p, t)| (p.to_string(), t.to_string())).collect()
}

#[test]
fn expand_puts_files_in_at_any_depth() {
    let all = files(&[
        ("src/./std.mi", "#include lib/io\nfn abs do end"),
        ("src/./lib/io.mi", "extern fn puts with ptr s end"),
        ("src/./other.mi", "fn other do end"),
    ]);
    let text = "#include std\n#include other\nfn main do end\n";
    assert_eq!(
        expand("src/main.mi", text, &all, 2).unwrap(),
        "extern fn puts with ptr s end\nfn abs do end\nfn other do end\nfn main do end\n"
    );
    // a text that asks for nothing is itself, at any depth
    assert_eq!(expand("src/main.mi", "fn main do end", &all, 0).unwrap(), "fn main do end");
    assert_eq!(expand("src/main.mi", "", &vec![], 0).unwrap(), "");
    // one level suffices for a file that asks for nothing
    assert_eq!(expand("src/main.mi", "#include other", &all, 1).unwrap(), "fn other do end");
}

#[test]
fn expand_splices_in_the_order_of_the_directives() {
    // the first file brings a line that asks for the second: it is
    // replaced when the turn of the second comes
    let all = files(&[("././a.mi", "A\n#include b"), ("././b.mi", "B"), ("./././b.mi", "inner")]);
    assert_eq!(expand("main.mi", "#include b\n#include a", &all, 3).unwrap(), "B\nA\ninner");
    // of two files at one path the first counts
    let twice = files(&[("././a.mi", "first"), ("././a.mi", "second")]);
    assert_eq!(expand("main.mi", "#include a", &twice, 1).unwrap(), "first");
}

#[test]
fn expand_refuses_a_missing_file() {
    let all = files(&[("././a.mi", "#include gone")]);
    let e = expand("main.mi", "x\n#include a\n", &all, 5).unwrap_err();
    assert!(matches!(&e.et, ParseET::IOError(m) if m == "error including file: ./././gone.mi"));
    assert_eq!(e.context, vec!["doing IO operation".to_string()]);
    assert!(e.loc.is_none());
    let e = expand("dir/main.mi", "#include a", &vec![], 5).unwrap_err();
    assert!(matches!(&e.et, ParseET::IOError(m) if m == "error including file: dir/./a.mi"));
}

#[test]
fn expand_refuses_files_that_include_each_other() {
    let all = files(&[("././a.mi", "#include b"), ("./././b.mi", "#include a"), ("././././a.mi", "#include a")]);
    for depth in [0, 1, 2] {
        let e = expand("main.mi", "#include a", &all, depth).unwrap_err();
        assert!(matches!(&e.et, ParseET::IOError(m) if m.starts_with("files include each other too deep: ")), "{depth}");
    }
    let e = expand("main.mi", "#include a", &all, 0).unwrap_err();
    assert!(matches!(&e.et, ParseET::IOError(m) if m == "files include each other too deep: ././a.mi"));
    let e = expand("main.mi", "#include a", &all, 7).unwrap_err();
    assert!(matches!(&e.et, ParseET::IOError(m) if m == "error including file: ./././././a.mi"));
}
