//! Scripts: the pragmas, the two rewrites, and the interpreter.
use goodomen::script::{code_spans, modernise, pragmas, preprocess, word, Scripts, ScriptError};

/// A script with everything in it that has to be dealt with.
const SAMPLE: &str = r#"
$if debug
  kept_by_define = 1
$else
  dropped_by_define = 1
$end
$if nil
  never = 1
$end
local break = 0
while 1 do break end
f = function() return mdkNewGame(%lev, %cp) end
s = "a %s and a %d, both untouched"
-- and a %comment, likewise
"#;

#[test]
fn the_pragmas_resolve_and_the_line_numbers_do_not_move() {
    let off = preprocess(SAMPLE, &[]).unwrap();
    assert!(!off.contains("kept_by_define"));
    assert!(off.contains("dropped_by_define"));

    let on = preprocess(SAMPLE, &["debug"]).unwrap();
    assert!(on.contains("kept_by_define"));
    assert!(!on.contains("dropped_by_define"));
    assert!(!on.contains("never"), "$if nil is never true");
    assert_eq!(on.lines().count(), SAMPLE.lines().count(), "line numbers must not move");
}

#[test]
fn the_two_lua_3_constructs_are_rewritten_and_nothing_else_is() {
    let on = preprocess(SAMPLE, &["debug"]).unwrap();
    assert!(on.contains("local break_ = 0"), "{on}");
    assert!(on.contains("while 1 do break end"), "the statement stays a statement");
    assert!(on.contains("mdkNewGame(lev, cp)"), "{on}");
    assert!(on.contains("\"a %s and a %d, both untouched\""), "strings are left alone");
    assert!(on.contains("%comment"), "comments are left alone");
}

#[test]
fn an_unterminated_pragma_is_an_error() {
    assert!(matches!(preprocess("$if debug\nx = 1\n", &[]), Err(ScriptError::Pragma(_))));
    assert!(matches!(preprocess("$end\n", &[]), Err(ScriptError::Pragma(_))));
}

#[test]
fn the_prelude_supplies_the_lua_3_library() {
    let scripts = Scripts::new().unwrap();
    let found: bool = scripts
        .lua
        .load("return strfind('abc', 'b') == 2 and getn({1,2,3}) == 3 and mod(7,4) == 3")
        .eval()
        .unwrap();
    assert!(found);
}

#[test]
fn a_lua_3_script_compiles_after_preprocessing() {
    let scripts = Scripts::new().unwrap();
    let (upvalues, breaks) = scripts.compile("sample", SAMPLE).unwrap();
    assert_eq!((upvalues, breaks), (2, 1));
    assert!(scripts.compile("bad", "x = = 1").is_err());
}

fn message(r: Result<String, ScriptError>) -> String {
    match r {
        Err(ScriptError::Pragma(m)) => m,
        _ => panic!("no pragma was at fault"),
    }
}

#[test]
fn every_fault_of_a_pragma_says_what_it_is() {
    assert_eq!(message(pragmas("$else", &[])), "$else without $if");
    assert_eq!(message(pragmas("x\n$end", &[])), "$end without $if");
    assert_eq!(message(pragmas("  $wibble 3", &[])), "unknown pragma $wibble");
    assert_eq!(message(pragmas("$", &[])), "unknown pragma $");
    assert_eq!(message(pragmas("$if a\n$ifnot b", &[])), "2 unterminated $if");
}

#[test]
fn pragmas_nest_and_turn_round() {
    let text = "$ifnot a\none\n$else\ntwo\n$if b\nthree\n$end\n$end\n$debug\nfour";
    let lines = |defines: &[&str]| -> Vec<String> {
        pragmas(text, defines).unwrap().split('\n').map(|l| l.to_string()).collect()
    };
    assert_eq!(lines(&[]), ["", "one", "", "", "", "", "", "", "", "four"]);
    assert_eq!(lines(&["a"]), ["", "", "", "two", "", "", "", "", "", "four"]);
    assert_eq!(lines(&["a", "b"]), ["", "", "", "two", "", "three", "", "", "", "four"]);
    assert_eq!(lines(&["b"]), ["", "one", "", "", "", "", "", "", "", "four"]);
    // nil is not a name that can be defined
    assert_eq!(pragmas("$if nil\nx\n$end", &["nil"]).unwrap(), "\n\n");
    assert_eq!(pragmas("$ifnot nil\nx\n$end", &["nil"]).unwrap(), "\nx\n");
}

#[test]
fn code_is_told_from_strings_and_comments() {
    let spans = |s: &str| {
        let c: Vec<char> = s.chars().collect();
        code_spans(&c)
    };
    assert_eq!(spans("ab"), [(0, 2)]);
    assert_eq!(spans("a'b'c"), [(0, 1), (4, 5)]);
    assert_eq!(spans("a--b\nc"), [(0, 1), (4, 6)]);
    assert_eq!(spans("a[[b]]c"), [(0, 1), (6, 7)]);
    assert_eq!(spans("'\\''x"), [(0, 0), (4, 5)]);
    assert_eq!(spans("a'b"), [(0, 1), (3, 3)]);
    assert!(word('a') && word('Z') && word('0') && word('_'));
    assert!(!word('%') && !word(' ') && !word('.'));
}

#[test]
fn a_rewrite_is_counted_where_it_is_made() {
    assert_eq!(modernise("x = %y"), ("x = y".to_string(), 1, 0));
    assert_eq!(modernise("x = 7 % 3"), ("x = 7 % 3".to_string(), 0, 0));
    assert_eq!(modernise("break = 1"), ("break_ = 1".to_string(), 0, 1));
    assert_eq!(modernise("if break == 1 then"), ("if break == 1 then".to_string(), 0, 0));
    assert_eq!(modernise("f(break, 1)"), ("f(break_, 1)".to_string(), 0, 1));
    assert_eq!(modernise("broken = breaks"), ("broken = breaks".to_string(), 0, 0));
    assert_eq!(modernise("'%y' -- %z"), ("'%y' -- %z".to_string(), 0, 0));
    assert_eq!(modernise(""), (String::new(), 0, 0));
}

/// Run a script in its state.
fn run(scripts: &Scripts, name: &str, source: &str) -> Result<(), ScriptError> {
    Scripts::ran(scripts.prepare(name, source)?.call(()))
}

#[test]
fn a_script_runs_in_its_own_state() {
    let scripts = Scripts::new().unwrap();
    run(&scripts, "one", "$if nil\nx = 1\n$else\nx = strlen('four')\n$end").unwrap();
    assert_eq!(scripts.lua.globals().get::<i64>("x").unwrap(), 4);
    assert!(matches!(run(&scripts, "two", "error('no')"), Err(ScriptError::Lua(_))));
    assert!(matches!(run(&scripts, "three", "x = = 1"), Err(ScriptError::Lua(_))));
    assert!(matches!(run(&scripts, "four", "$end"), Err(ScriptError::Pragma(_))));
    // compiling does not run, and preparing does not either
    assert!(scripts.prepare("nought", "x = 8").is_ok());
    assert_eq!(scripts.compile("five", "x = 9").unwrap(), (0, 0));
    assert_eq!(scripts.lua.globals().get::<i64>("x").unwrap(), 4);
    // and the line of an error is the line of the file
    let fault = match run(&scripts, "six", "$if nil\n\n$end\nx = = 1") {
        Err(ScriptError::Lua(e)) => e.to_string(),
        _ => panic!("it runs"),
    };
    assert!(fault.contains(":4:"), "{fault}");
}

#[test]
fn what_the_interpreter_answers_comes_through() {
    assert!(Scripts::ran(Ok(())).is_ok());
    assert!(matches!(Scripts::ran(Err(mlua::Error::StackError)), Err(ScriptError::Lua(_))));
    assert!(matches!(
        Scripts::compiled(Err(mlua::Error::StackError), (1, 2)),
        Err(ScriptError::Lua(_))
    ));
    assert!(matches!(
        Scripts::prepared(Err(mlua::Error::StackError)),
        Err(ScriptError::Lua(_))
    ));
    assert!(matches!(Scripts::over(Err(mlua::Error::StackError)), Err(ScriptError::Lua(_))));
    let lua = mlua::Lua::new();
    lua.globals().set("seven", 7).unwrap();
    let over = Scripts::over(Ok(lua.clone())).unwrap();
    assert_eq!(over.lua.globals().get::<i64>("seven").unwrap(), 7);
    let f = lua.load("return 1").into_function();
    assert_eq!(Scripts::prepared(f.clone()).unwrap().call::<i64>(()).unwrap(), 1);
    assert_eq!(Scripts::compiled(f, (1, 2)).unwrap(), (1, 2));
}

#[test]
fn a_chunk_has_no_zero_in_its_name() {
    let scripts = Scripts::new().unwrap();
    assert!(scripts.compile("seven", "x = 1").is_ok());
    assert!(matches!(scripts.compile("se\0ven", "x = 1"), Err(ScriptError::Lua(_))));
    assert!(matches!(run(&scripts, "\0", "x = 1"), Err(ScriptError::Lua(_))));
}

#[test]
fn break_behind_a_longer_name_is_the_statement() {
    for text in [
        "while 1 do x = color break end",
        "while 1 do x = vocal break end",
        "while 1 do x = _and break end",
        "while 1 do x = knot break end",
    ] {
        assert_eq!(modernise(text), (text.to_string(), 0, 0));
    }
    for (text, made) in [
        ("x = y or break", "x = y or break_"),
        ("or break", "or break_"),
        ("local break", "local break_"),
        ("if not break then", "if not break_ then"),
        ("x = (y)and break", "x = (y)and break_"),
    ] {
        assert_eq!(modernise(text), (made.to_string(), 0, 1));
    }
}

#[test]
fn a_second_pass_finds_nothing() {
    for text in [
        "local break = 1 -- break = 2\nwhile 1 do break end",
        "break, x = 'break = 1', break or break",
        "f(break)[[break = 1]] break = break == break",
        "x = \"a\\\"break = \" break = 3",
    ] {
        let (once, _, breaks) = modernise(text);
        assert!(breaks > 0);
        assert_eq!(modernise(&once), (once.clone(), 0, 0));
    }
}
