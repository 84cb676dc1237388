use aichat_core::doc_comment::{collect_doc_comments, parse_doc_comments, parse_function_decl};
use aichat_core::error::Error;
use aichat_core::function::FunctionDeclaration;
use aichat_core::lua_run::{
    candidate_names, discover_declarations, lua_call_prompt, run_lua_tool_sync,
};
use aichat_core::lua_tool::{
    build_call_args, build_ctx_table, extract_params_field, has_lua_tools, lua_files, new_registry, register,
    registered_tool, resolve_param_meta, signature_param_names, DirEntry, ParamFields, ParamMeta,
    RawParam, Registry,
};
use aichat_core::lua_value::{json_to_lua, lua_to_json, LuaNumber, LuaValue};
use aichat_core::role::{Role, RoleKind};
use aichat_core::table::Table;
use serde_json::Value;
use std::cell::RefCell;
use std::collections::HashMap;
use std::rc::Rc;

fn json(text: &str) -> Value {
    serde_json::from_str(text).unwrap()
}

fn outside(e: mlua::Error) -> Error {
    Error::Outside { words: e.to_string() }
}

fn from_vm(value: &mlua::Value) -> LuaValue {
    match value {
        mlua::Value::Nil => LuaValue::Nil,
        mlua::Value::Boolean(b) => LuaValue::Boolean(*b),
        mlua::Value::Integer(i) => LuaValue::Integer(*i),
        mlua::Value::Number(n) => {
            LuaValue::Number(LuaNumber { json: Value::from(*n), text: n.to_string() })
        }
        mlua::Value::String(s) => LuaValue::Text(s.as_bytes().to_vec()),
        mlua::Value::Table(t) => LuaValue::Table(
            t.pairs::<mlua::Value, mlua::Value>()
                .map(|pair| {
                    let (k, v) = pair.unwrap();
                    (from_vm(&k), from_vm(&v))
                })
                .collect(),
        ),
        mlua::Value::Function(_) => LuaValue::Other("function".to_string()),
        mlua::Value::Thread(_) => LuaValue::Other("thread".to_string()),
        _ => LuaValue::Other("userdata".to_string()),
    }
}

fn to_vm(lua: &mlua::Lua, value: &LuaValue) -> mlua::Value {
    match value {
        LuaValue::Boolean(b) => mlua::Value::Boolean(*b),
        LuaValue::Integer(i) => mlua::Value::Integer(*i),
        LuaValue::Number(n) => mlua::Value::Number(n.text.parse().unwrap()),
        LuaValue::Text(bytes) => mlua::Value::String(lua.create_string(bytes).unwrap()),
        LuaValue::Table(pairs) => {
            let table = lua.create_table().unwrap();
            for (k, v) in pairs {
                table.set(to_vm(lua, k), to_vm(lua, v)).unwrap();
            }
            mlua::Value::Table(table)
        }
        _ => mlua::Value::Nil,
    }
}

fn raw_params(opts: &mlua::Table) -> Option<Vec<RawParam>> {
    let params: Option<mlua::Table> = opts.get("params").unwrap();
    let params = params?;
    let mut raw = vec![];
    for i in 1..=params.raw_len() as i64 {
        raw.push(match params.get::<String>(i) {
            Ok(name) => RawParam::Name(name),
            Err(_) => match params.get::<mlua::Table>(i) {
                Err(_) => RawParam::Other,
                Ok(entry) => RawParam::Fields {
                    name: entry.get("name").ok(),
                    fields: Ok(ParamFields {
                        description: entry.get("description").unwrap(),
                        kind: entry.get("type").unwrap(),
                        enum_values: entry.get("enum").unwrap(),
                        required: entry.get("required").unwrap(),
                    }),
                },
            },
        });
    }
    Some(raw)
}

/// A function as Lua dumps it. Its local variables are read from there, as `debug` is
/// not loaded.
struct Dump {
    bytes: Vec<u8>,
    at: usize,
}

impl Dump {
    fn byte(&mut self) -> u8 {
        self.at += 1;
        self.bytes[self.at - 1]
    }

    fn number(&mut self) -> usize {
        let mut n: usize = 0;
        loop {
            let b = self.byte();
            n = (n << 7) | usize::from(b & 0x7f);
            if b & 0x80 != 0 {
                return n;
            }
        }
    }

    fn text(&mut self) -> String {
        let n = self.number().saturating_sub(1);
        self.at += n;
        String::from_utf8_lossy(&self.bytes[self.at - n..self.at]).into_owned()
    }

    /// The local variables of a function that are there when it starts.
    fn function(&mut self) -> Vec<String> {
        self.text();
        self.number();
        self.number();
        self.at += 3;
        self.at += 4 * self.number();
        for _ in 0..self.number() {
            match self.byte() {
                3 | 19 => self.at += 8,
                4 | 20 => drop(self.text()),
                _ => {}
            }
        }
        self.at += 3 * self.number();
        for _ in 0..self.number() {
            self.function();
        }
        self.at += self.number();
        for _ in 0..2 * self.number() {
            self.number();
        }
        let mut names = vec![];
        for _ in 0..self.number() {
            let (name, start, end) = (self.text(), self.number(), self.number());
            if start == 0 && end > 0 {
                names.push(name);
            }
        }
        for _ in 0..self.number() {
            self.text();
        }
        names
    }
}

/// The name of a parameter of a function.
fn getlocal(f: &mlua::Function, i: i64) -> Option<String> {
    let names = Dump { bytes: f.dump(false), at: 32 }.function();
    names.get((i - 1) as usize).cloned()
}

/// Scripts in a virtual machine.
struct Scripts {
    lua: mlua::Lua,
    docs: mlua::Table,
    sources: Vec<String>,
    registry: Rc<RefCell<Registry>>,
    handlers: Rc<RefCell<HashMap<String, mlua::Function>>>,
    announced: RefCell<Vec<String>>,
}

fn scripts(sources: &[&str]) -> Scripts {
    let lua = mlua::Lua::new();
    let docs = lua.create_table().unwrap();
    lua.globals().set("docs", docs.clone()).unwrap();
    let registry = Rc::new(RefCell::new(new_registry()));
    let handlers = Rc::new(RefCell::new(HashMap::new()));
    let (tools, functions) = (registry.clone(), handlers.clone());
    let f = lua
        .create_function(move |_, (name, opts): (String, mlua::Table)| {
            let description: Option<String> = opts.get("description")?;
            let handler: mlua::Result<mlua::Function> = opts.get("handler");
            let tool = registered_tool(&name, description, raw_params(&opts), handler.is_ok())
                .map_err(|e| mlua::Error::RuntimeError(e.message()))?;
            functions.borrow_mut().insert(name.clone(), handler?);
            register(&mut tools.borrow_mut(), name, tool);
            Ok(())
        })
        .unwrap();
    lua.globals().set("register", f).unwrap();
    for source in sources {
        lua.load(*source).exec().unwrap();
    }
    Scripts {
        lua,
        docs,
        sources: sources.iter().map(|s| s.to_string()).collect(),
        registry,
        handlers,
        announced: RefCell::new(vec![]),
    }
}

impl Scripts {
    fn is_function(&self, name: &str) -> Result<bool, Error> {
        let value: mlua::Value = self.lua.globals().get(name).map_err(outside)?;
        Ok(value.is_function())
    }

    fn doc(&self, name: &str) -> Result<Option<String>, Error> {
        self.docs.get(name).map_err(outside)
    }

    fn function(&self, name: &str, registered: bool) -> Result<mlua::Function, Error> {
        if registered {
            Ok(self.handlers.borrow()[name].clone())
        } else {
            self.lua.globals().get(name).map_err(outside)
        }
    }

    fn signature(&self, name: &str, registered: bool) -> Result<Vec<String>, Error> {
        let f = self.function(name, registered)?;
        signature_param_names(&|i: i64| Ok(getlocal(&f, i)))
    }

    fn call(&self, name: &str, registered: bool, args: &Vec<LuaValue>) -> Result<LuaValue, Error> {
        let f = self.function(name, registered)?;
        let args: Vec<mlua::Value> = args.iter().map(|v| to_vm(&self.lua, v)).collect();
        let given: mlua::Value = f.call(mlua::Variadic::from(args)).map_err(outside)?;
        Ok(from_vm(&given))
    }

    fn discover(&self, agent: bool) -> Result<Vec<FunctionDeclaration>, Error> {
        let keys: Vec<LuaValue> = self
            .docs
            .pairs::<mlua::Value, mlua::Value>()
            .map(|pair| from_vm(&pair.unwrap().0))
            .collect();
        discover_declarations(
            &self.sources,
            &self.registry.borrow(),
            &keys,
            agent,
            &|n: &str| self.is_function(n),
            &|n: &str| self.doc(n),
            &|n: &str, r: bool| self.signature(n, r),
        )
    }

    fn run(&self, name: &str, args: &str, envs: &Table<String>) -> Result<Option<Value>, Error> {
        self.run_on(name, &json(args), envs)
    }

    fn run_on(&self, name: &str, args: &Value, envs: &Table<String>) -> Result<Option<Value>, Error> {
        run_lua_tool_sync(
            &self.sources,
            &self.registry.borrow(),
            name,
            args,
            envs,
            &|n: &str| self.is_function(n),
            &|n: &str| self.doc(n),
            &|n: &str, r: bool| self.signature(n, r),
            &|n: &str, r: bool, a: &Vec<LuaValue>| self.call(n, r, a),
            &|line: &str| self.announced.borrow_mut().push(line.to_string()),
        )
    }
}

// ---- Values ----

#[test]
fn json_to_lua_round_trips_nested_object() {
    let value = json(
        r#"{"a": 1, "b": "two", "c": [1, 2, 3], "d": { "e": true, "f": null }}"#,
    );
    let lua_value = json_to_lua(&value);
    let back = lua_to_json(&lua_value).unwrap();
    let expected = json(r#"{"a": 1, "b": "two", "c": [1, 2, 3], "d": { "e": true }}"#);
    assert_eq!(back, expected);
    let lua = mlua::Lua::new();
    let through = lua_to_json(&from_vm(&to_vm(&lua, &lua_value))).unwrap();
    assert_eq!(through, expected);
}

#[test]
fn json_to_lua_round_trips_array() {
    let value = json(r#"[1, "two", [3, 4], { "k": "v" }]"#);
    let lua_value = json_to_lua(&value);
    let back = lua_to_json(&lua_value).unwrap();
    assert_eq!(back, value);
}

#[test]
fn empty_lua_table_becomes_json_object() {
    let lua = mlua::Lua::new();
    let table = lua.create_table().unwrap();
    let back = lua_to_json(&from_vm(&mlua::Value::Table(table))).unwrap();
    assert_eq!(back, json("{}"));
}

#[test]
fn lua_function_return_is_an_error() {
    let lua = mlua::Lua::new();
    let f = lua.create_function(|_, ()| Ok(())).unwrap();
    let err = lua_to_json(&from_vm(&mlua::Value::Function(f))).unwrap_err();
    assert!(err.message().contains("function"));
    assert_eq!(
        err.message(),
        "Lua tool returned a function value, which can't be converted to JSON"
    );
}

#[test]
fn table_with_non_contiguous_keys_becomes_object_not_array() {
    let lua = mlua::Lua::new();
    let table = lua.create_table().unwrap();
    table.set(1, "a").unwrap();
    table.set(3, "c").unwrap();
    let back = lua_to_json(&from_vm(&mlua::Value::Table(table))).unwrap();
    assert_eq!(back, json(r#"{"1": "a", "3": "c"}"#));
}

#[test]
fn numbers_of_documents() {
    assert_eq!(lua_to_json(&json_to_lua(&json("-7"))).unwrap(), json("-7"));
    assert_eq!(lua_to_json(&json_to_lua(&json("2.5"))).unwrap(), json("2.5"));
    match json_to_lua(&json("18446744073709551615")) {
        LuaValue::Number(n) => assert_eq!(n.text, "18446744073709552000"),
        _ => panic!("no number"),
    }
    assert_eq!(lua_to_json(&json_to_lua(&Value::Null)).unwrap(), Value::Null);
}

#[test]
fn keys_of_tables() {
    let half = || LuaValue::Number(LuaNumber { json: Value::from(0.5), text: "0.5".to_string() });
    let table = LuaValue::Table(vec![
        (LuaValue::Integer(-2), LuaValue::Boolean(true)),
        (half(), half()),
        (LuaValue::Text(vec![b'k', 0xff]), LuaValue::Text("é".as_bytes().to_vec())),
    ]);
    let expected = json(r#"{"-2": true, "0.5": 0.5, "k�": "é"}"#);
    assert_eq!(lua_to_json(&table).unwrap(), expected);
    let odd = LuaValue::Table(vec![(LuaValue::Boolean(true), LuaValue::Nil)]);
    assert_eq!(
        lua_to_json(&odd).unwrap_err().message(),
        "Lua table has a boolean key, which can't become a JSON object key"
    );
    let nested = LuaValue::Table(vec![(
        LuaValue::Integer(1),
        LuaValue::Other("thread".to_string()),
    )]);
    assert_eq!(
        lua_to_json(&nested).unwrap_err(),
        Error::LuaValue { found: "thread".to_string() }
    );
}

#[test]
fn table_is_an_array_when_its_keys_are_the_first_numbers() {
    let pair = |k: i64, v: i64| (LuaValue::Integer(k), LuaValue::Integer(v));
    let array = LuaValue::Table(vec![pair(2, 20), pair(1, 10)]);
    assert_eq!(lua_to_json(&array).unwrap(), json("[10, 20]"));
    let object = LuaValue::Table(vec![
        pair(1, 10),
        pair(3, 30),
        (LuaValue::Text(b"x".to_vec()), LuaValue::Integer(1)),
    ]);
    assert_eq!(lua_to_json(&object).unwrap(), json(r#"{"1": 10, "3": 30, "x": 1}"#));
}

// ---- Parameters ----

#[test]
fn signature_param_names_reads_declared_parameter_names() {
    let lua = mlua::Lua::new();
    let f: mlua::Function = lua.load("return function(a, b, c) end").eval().unwrap();
    let names = signature_param_names(&|i: i64| Ok(getlocal(&f, i))).unwrap();
    assert_eq!(names, vec!["a", "b", "c"]);
}

#[test]
fn signature_param_names_empty_for_niladic_function() {
    let lua = mlua::Lua::new();
    let f: mlua::Function = lua.load("return function() end").eval().unwrap();
    let names = signature_param_names(&|i: i64| Ok(getlocal(&f, i))).unwrap();
    assert!(names.is_empty());
}

#[test]
fn signature_param_names_stops_before_varargs() {
    let lua = mlua::Lua::new();
    let f: mlua::Function = lua.load("return function(a, ...) end").eval().unwrap();
    let names = signature_param_names(&|i: i64| Ok(getlocal(&f, i))).unwrap();
    assert_eq!(names, vec!["a"]);
}

#[test]
fn first_error_ends_discovery() {
    let s = scripts(&[
        "docs.a = 'A' docs.b = 'B' function a() end function b() end",
        "register('t', { handler = function() end }) register('u', { handler = function() end })",
    ]);
    let keys = vec![LuaValue::Text(b"b".to_vec()), LuaValue::Text(b"a".to_vec())];
    let words = |bad: &[&str]| {
        discover_declarations(
            &s.sources,
            &s.registry.borrow(),
            &keys,
            false,
            &|n: &str| s.is_function(n),
            &|n: &str| s.doc(n),
            &|n: &str, _: bool| {
                if bad.contains(&n) {
                    Err(Error::Outside { words: n.to_string() })
                } else {
                    Ok(vec![])
                }
            },
        )
        .unwrap_err()
        .message()
    };
    assert_eq!(words(&["a", "b", "t", "u"]), "t");
    assert_eq!(words(&["a", "b", "u"]), "u");
    assert_eq!(words(&["a", "b"]), "a");
    assert_eq!(words(&["b"]), "b");
}

#[test]
fn signature_that_breaks_off() {
    let broken = |i: i64| {
        if i < 3 {
            Ok(Some(format!("p{i}")))
        } else {
            Err(Error::Outside { words: i.to_string() })
        }
    };
    assert_eq!(signature_param_names(&broken).unwrap_err().message(), "3");
}

#[test]
fn signature_that_cannot_be_read() {
    let failing = |_: i64| Err::<Option<String>, Error>(Error::Outside { words: "no".to_string() });
    assert_eq!(signature_param_names(&failing).unwrap_err().message(), "no");
}

fn plain(name: &str) -> ParamMeta {
    ParamMeta {
        name: name.to_string(),
        description: None,
        kind: None,
        enum_values: None,
        required: true,
    }
}

fn resolved_names(
    explicit: Option<&Vec<ParamMeta>>,
    comment: Option<&Vec<(String, String)>>,
) -> Vec<String> {
    let declared = |name: &str, registered: bool| {
        assert_eq!((name, registered), ("tool", true));
        Ok(vec!["declared".to_string()])
    };
    let params = resolve_param_meta("tool", true, explicit, comment, &declared).unwrap();
    params.into_iter().map(|p| p.name).collect()
}

#[test]
fn order_of_the_sources_of_parameters() {
    let explicit = vec![plain("explicit")];
    let comment = vec![("comment".to_string(), String::new())];
    assert_eq!(resolved_names(Some(&explicit), Some(&comment)), vec!["explicit"]);
    assert!(resolved_names(Some(&vec![]), Some(&comment)).is_empty());
    assert_eq!(resolved_names(None, Some(&comment)), vec!["comment"]);
    assert_eq!(resolved_names(None, Some(&vec![])), vec!["declared"]);
    assert_eq!(resolved_names(None, None), vec!["declared"]);
    let described = vec![("a".to_string(), "about a".to_string())];
    let none = |_: &str, _: bool| Ok(vec![]);
    let params = resolve_param_meta("tool", false, None, Some(&described), &none).unwrap();
    assert_eq!(params[0].description.as_deref(), Some("about a"));
    let params = resolve_param_meta("tool", false, None, Some(&comment), &none).unwrap();
    assert_eq!(params[0].description, None);
    let failing =
        |_: &str, _: bool| Err::<Vec<String>, Error>(Error::Outside { words: "bad".to_string() });
    assert_eq!(
        resolve_param_meta("tool", false, None, None, &failing).unwrap_err().message(),
        "bad"
    );
}

#[test]
fn parameters_of_a_registered_tool() {
    let fields = || ParamFields {
        description: Some("d".to_string()),
        kind: Some("integer".to_string()),
        enum_values: Some(vec!["1".to_string()]),
        required: None,
    };
    let params = extract_params_field(Some(vec![
        RawParam::Name("a".to_string()),
        RawParam::Fields { name: Some("b".to_string()), fields: Ok(fields()) },
        RawParam::Fields {
            name: Some("c".to_string()),
            fields: Ok(ParamFields { required: Some(false), ..fields() }),
        },
    ]))
    .unwrap()
    .unwrap();
    assert_eq!(params.len(), 3);
    assert_eq!((params[0].name.as_str(), params[0].required), ("a", true));
    assert_eq!((params[1].kind.as_deref(), params[1].required), (Some("integer"), true));
    assert_eq!(params[1].enum_values, Some(vec!["1".to_string()]));
    assert_eq!((params[2].description.as_deref(), params[2].required), (Some("d"), false));
    assert!(extract_params_field(None).unwrap().is_none());
    assert!(extract_params_field(Some(vec![])).unwrap().unwrap().is_empty());

    let refused = |entry: RawParam| {
        extract_params_field(Some(vec![RawParam::Name("a".to_string()), entry]))
            .unwrap_err()
            .message()
    };
    assert_eq!(
        refused(RawParam::Other),
        "`params[2]` must be a string or a table with a `name` field"
    );
    assert_eq!(
        refused(RawParam::Fields { name: None, fields: Ok(fields()) }),
        "`params[2]` table is missing a `name` field"
    );
    assert_eq!(
        refused(RawParam::Fields {
            name: Some("b".to_string()),
            fields: Err(Error::Outside { words: "unreadable".to_string() }),
        }),
        "unreadable"
    );
}

#[test]
fn registered_tools_need_a_handler() {
    assert_eq!(
        registered_tool("t", None, None, false).unwrap_err().message(),
        "register(\"t\", ...) requires a `handler` function"
    );
    let mut registry = new_registry();
    for (name, d) in [("b", "1"), ("a", "2"), ("b", "3")] {
        let tool = registered_tool(name, Some(d.to_string()), None, true).unwrap();
        register(&mut registry, name.to_string(), tool);
    }
    let all: Vec<(&str, &str)> = registry
        .iter()
        .map(|(name, tool)| (name.as_str(), tool.description.as_deref().unwrap()))
        .collect();
    assert_eq!(all, vec![("b", "3"), ("a", "2")]);
}

#[test]
fn arguments_are_passed_in_order() {
    let order = vec!["b".to_string(), "missing".to_string()];
    let args = build_call_args(&json(r#"{"a": 1, "b": "x", "c": null}"#), &order);
    assert_eq!(args.len(), 4);
    assert!(matches!(&args[0], LuaValue::Text(t) if t == b"x"));
    assert!(matches!(&args[1], LuaValue::Nil));
    assert!(matches!(&args[2], LuaValue::Integer(1)));
    assert!(matches!(&args[3], LuaValue::Nil));
    assert_eq!(build_call_args(&json("[1]"), &order).len(), 2);
}

#[test]
fn environment_for_scripts() {
    let mut envs = Table::new();
    envs.insert("K".to_string(), "v".to_string());
    assert_eq!(
        lua_to_json(&build_ctx_table(&envs)).unwrap(),
        json(r#"{"env": {"K": "v"}}"#)
    );
    assert_eq!(
        lua_to_json(&build_ctx_table(&Table::new())).unwrap(),
        json(r#"{"env": {}}"#)
    );
}

// ---- Comments ----

#[test]
fn declarations_of_functions_in_source() {
    assert_eq!(parse_function_decl("function f(x)").as_deref(), Some("f"));
    assert_eq!(parse_function_decl("function  a_1 (x)").as_deref(), Some("a_1"));
    assert_eq!(parse_function_decl("function t.f(x)"), None);
    assert_eq!(parse_function_decl("function t:f(x)"), None);
    assert_eq!(parse_function_decl("function t . f(x)"), None);
    assert_eq!(parse_function_decl("function f --[[c]](x)").as_deref(), Some("f"));
    assert_eq!(parse_function_decl("function f -- note").as_deref(), Some("f"));
    assert_eq!(parse_function_decl("functionf(x)"), None);
    assert_eq!(parse_function_decl("function (x)"), None);
    assert_eq!(parse_function_decl("function f"), None);
    assert_eq!(parse_function_decl("local function f(x)"), None);
}

#[test]
fn comments_before_functions() {
    let source = "--- First\n---  second.\n-- @param a  The a \n-- @param b\n-- @param\n-- aside\n\n  function f(a, b)\nend\n--- Lost\nx = 1\nfunction g() end\n-- @param only\nfunction h(only) end\n";
    let docs = parse_doc_comments(source);
    assert_eq!(docs.len(), 2);
    let f = docs.get("f").unwrap();
    assert_eq!(f.description.as_deref(), Some("First second."));
    let params: Vec<(&str, &str)> =
        f.params.iter().map(|(n, d)| (n.as_str(), d.as_str())).collect();
    assert_eq!(params, vec![("a", "The a"), ("b", "")]);
    assert!(docs.get("g").is_none());
    let h = docs.get("h").unwrap();
    assert_eq!(h.description, None);
    assert_eq!(h.params.len(), 1);
}

#[test]
fn later_scripts_replace_comments() {
    let first = "--- One\nfunction f() end\n--- Kept\nfunction k() end".to_string();
    let second = "--- Two\nfunction f() end".to_string();
    let docs = collect_doc_comments(&vec![first, second]);
    assert_eq!(docs.get("f").unwrap().description.as_deref(), Some("Two"));
    assert_eq!(docs.get("k").unwrap().description.as_deref(), Some("Kept"));
    let keys = vec![
        LuaValue::Text(b"z".to_vec()),
        LuaValue::Integer(3),
        LuaValue::Text(b"f".to_vec()),
        LuaValue::Text(b"A".to_vec()),
    ];
    assert_eq!(candidate_names(&docs, &keys), vec!["A", "f", "k", "z"]);
}

// ---- Calls ----

const REVERSE_TEXT_LUA: &str = r#"
    docs.reverse_text = "Reverse the characters of a string."
    function reverse_text(text)
        return text:reverse()
    end
"#;

const WEB_SEARCH_LUA: &str = r##"
    register("web_search", {
        description = "Search the web and return matching titles.",
        params = {
            { name = "query", type = "string", description = "Search query" },
            {
                name = "category",
                type = "string",
                description = "Restrict results to a category",
                enum = { "news", "images", "videos" },
                required = false,
            },
            { name = "limit", type = "integer", description = "Max results to return", required = false },
        },
        handler = function(query, category, limit)
            limit = limit or 3
            category = category or "general"
            return "Top " .. limit .. " " .. category .. " results for '" .. query .. "': ..."
        end,
    })
"##;

#[test]
fn reverse_text_tool_reverses_a_string() {
    let s = scripts(&[REVERSE_TEXT_LUA]);
    let out = s
        .run("reverse_text", r#"{"text": "Hello, world!"}"#, &Table::new())
        .unwrap()
        .unwrap();
    assert_eq!(out, json(r#""!dlrow ,olleH""#));
    assert_eq!(
        *s.announced.borrow(),
        vec!["Call reverse_text (lua) -- Reverse the characters of a string."]
    );
}

#[test]
fn get_weather_tool_returns_a_plain_string_with_a_default_param() {
    let s = scripts(&[r#"
        --- Get the current weather for a city.
        -- @param location City name.
        -- @param unit Either "celsius" or "fahrenheit".
        function get_weather(location, unit)
            unit = unit or "celsius"
            return "It is sunny and 22 degrees " .. unit .. " in " .. location .. "."
        end
    "#]);
    let out = s
        .run("get_weather", r#"{"location": "Paris"}"#, &Table::new())
        .unwrap()
        .unwrap();
    assert_eq!(out, json(r#""It is sunny and 22 degrees celsius in Paris.""#));
}

#[test]
fn register_tool_accepts_rich_param_metadata_and_optional_args() {
    let s = scripts(&[WEB_SEARCH_LUA]);
    let out = s
        .run("web_search", r#"{"query": "rust lang"}"#, &Table::new())
        .unwrap()
        .unwrap();
    assert_eq!(out, json(r#""Top 3 general results for 'rust lang': ...""#));
}

#[test]
fn unknown_tool_name_falls_through_as_none() {
    let s = scripts(&["function foo() end"]);
    let out = s.run("bar", "{}", &Table::new()).unwrap();
    assert!(out.is_none());
    assert!(s.announced.borrow().is_empty());
    assert!(scripts(&[]).run("bar", "{}", &Table::new()).unwrap().is_none());
}

#[test]
fn calls_that_fail() {
    let s = scripts(&["function boom() error('no') end function odd() return print end"]);
    let err = s.run("boom", "{}", &Table::new()).unwrap_err();
    assert!(err.message().contains("no"));
    let err = s.run("odd", "{}", &Table::new()).unwrap_err();
    assert_eq!(err, Error::LuaValue { found: "function".to_string() });
    assert_eq!(s.announced.borrow()[0], "Call boom (lua)");
    assert_eq!(lua_call_prompt("f", Some("d")), "Call f (lua) -- d");
}

#[test]
fn environment_follows_the_documented_arguments() {
    let s = scripts(&[
        "-- @param name N\nfunction who(name, ctx) return { name, ctx.env.LLM_AGENT_VAR_X } end",
    ]);
    let mut envs = Table::new();
    envs.insert("LLM_AGENT_VAR_X".to_string(), "x".to_string());
    let out = s.run("who", r#"{"name": "n"}"#, &envs).unwrap().unwrap();
    assert_eq!(out, json(r#"["n", "x"]"#));
}

// ---- Instructions ----

fn agent() -> Role {
    Role {
        kind: RoleKind::Agent,
        name: "my-agent".to_string(),
        dynamic_instructions: true,
        ..Role::default()
    }
}

/// The instructions that an agent makes with a script; there is no program for them.
fn instructions(source: &str, input: Option<&str>, lua_tools: bool) -> Result<String, Error> {
    let s = scripts(&[source]);
    agent().run_instructions_fn(
        input,
        lua_tools,
        &|name: &str| name.to_uppercase(),
        &|name: &str, args: &Value, envs: &Table<String>| {
            assert_eq!(name, "my-agent");
            s.run_on("_instructions", args, envs)
        },
        &|name: &str, _: &Vec<String>, _: &Table<String>| {
            Err(Error::Outside { words: format!("Unable to run {name}") })
        },
    )
}

#[test]
fn run_instructions_fn_prefers_lua_over_external() {
    let source = r#"
        function _instructions(input)
            return "Lua instructions, input=" .. tostring(input)
        end
    "#;
    let with_input = instructions(source, Some("do the task"), true).unwrap();
    assert_eq!(with_input, "Lua instructions, input=do the task");
    let without_input = instructions(source, None, true).unwrap();
    assert_eq!(without_input, "Lua instructions, input=nil");
}

#[test]
fn run_instructions_fn_requires_a_string_return() {
    let source = "function _instructions(input) return { oops = true } end";
    let err = instructions(source, None, true).unwrap_err();
    assert!(err.message().contains("must return a string"));
    assert_eq!(
        err.message(),
        "'_instructions' must return a string, got: {\"oops\":true}"
    );
}

#[test]
fn run_instructions_fn_skips_lua_when_disabled() {
    let source = "function _instructions() return \"should not be used\" end";
    let err = instructions(source, None, false).unwrap_err();
    assert!(!err.message().contains("should not be used"));
    assert_eq!(err.message(), "Unable to run my-agent");
}

// ---- Files ----

fn entry(name: &str, is_file: bool) -> DirEntry {
    DirEntry { name: name.to_string(), is_file }
}

#[test]
fn no_lua_files_is_not_a_lua_tool_directory() {
    assert!(!has_lua_tools(Some(&vec![])));
    assert!(!has_lua_tools(None));
    let others = vec![entry(".lua", true), entry("x.lua", false), entry("a.luac", true)];
    assert!(!has_lua_tools(Some(&others)));
}

#[test]
fn directory_with_lua_file_is_a_lua_tool_directory() {
    assert!(has_lua_tools(Some(&vec![entry("tool.lua", true)])));
    let many = vec![entry("b.lua", true), entry("x", true), entry("a.lua", true)];
    assert!(has_lua_tools(Some(&many)));
    assert_eq!(lua_files(&many), vec!["a.lua", "b.lua"]);
}

// ---- Discovery ----

#[test]
fn discover_declarations_on_empty_dir_is_empty() {
    let decls = scripts(&[]).discover(false).unwrap();
    assert!(decls.is_empty());
}

#[test]
fn discover_skips_undocumented_global_function() {
    let s = scripts(&["function helper(x)\n    return x + 1\nend\n"]);
    let decls = s.discover(false).unwrap();
    assert!(decls.is_empty());
}

#[test]
fn discover_finds_documented_global_function_via_docs_table() {
    let decls = scripts(&[REVERSE_TEXT_LUA]).discover(false).unwrap();
    assert_eq!(decls.len(), 1);
    let decl = &decls[0];
    assert_eq!(decl.name, "reverse_text");
    assert_eq!(decl.description, "Reverse the characters of a string.");
    assert!(!decl.agent);
    let props = decl.parameters.properties.as_ref().unwrap();
    let text_prop = props.get("text").unwrap();
    assert_eq!(text_prop.type_value.as_deref(), Some("string"));
    assert_eq!(decl.parameters.required.as_deref(), Some(&["text".to_string()][..]));
}

#[test]
fn discover_finds_documented_global_function_via_comment() {
    let s = scripts(&[r#"
        --- Get the current weather for a city.
        -- @param location City name, e.g. "Paris".
        -- @param unit Either "celsius" or "fahrenheit".
        function get_weather(location, unit)
            unit = unit or "celsius"
            return "..."
        end
    "#]);
    let decls = s.discover(true).unwrap();
    assert_eq!(decls.len(), 1);
    let decl = &decls[0];
    assert_eq!(decl.name, "get_weather");
    assert_eq!(decl.description, "Get the current weather for a city.");
    assert!(decl.agent);
    let props = decl.parameters.properties.as_ref().unwrap();
    assert_eq!(
        props.get("location").unwrap().description.as_deref(),
        Some("City name, e.g. \"Paris\".")
    );
    assert_eq!(
        props.get("unit").unwrap().description.as_deref(),
        Some("Either \"celsius\" or \"fahrenheit\".")
    );
    let mut required = decl.parameters.required.clone().unwrap();
    required.sort();
    assert_eq!(required, vec!["location".to_string(), "unit".to_string()]);
}

#[test]
fn discover_finds_register_tool_with_rich_param_metadata() {
    let decls = scripts(&[WEB_SEARCH_LUA]).discover(false).unwrap();
    assert_eq!(decls.len(), 1);
    let decl = &decls[0];
    assert_eq!(decl.name, "web_search");
    assert_eq!(decl.description, "Search the web and return matching titles.");
    let props = decl.parameters.properties.as_ref().unwrap();
    assert_eq!(props.len(), 3);
    assert_eq!(props.get("query").unwrap().type_value.as_deref(), Some("string"));
    let category = props.get("category").unwrap();
    assert_eq!(category.type_value.as_deref(), Some("string"));
    assert_eq!(
        category.enum_value.as_deref(),
        Some(&["news".to_string(), "images".to_string(), "videos".to_string()][..])
    );
    assert_eq!(props.get("limit").unwrap().type_value.as_deref(), Some("integer"));
    assert_eq!(decl.parameters.required.as_deref(), Some(&["query".to_string()][..]));
}

#[test]
fn discover_register_tool_takes_precedence_over_same_named_global_function() {
    let s = scripts(&[r#"
        docs.reverse_text = "Global doc description."
        function reverse_text(text)
            return text:reverse()
        end

        register("reverse_text", {
            description = "Register doc description.",
            handler = function(text)
                return text:reverse()
            end,
        })
    "#]);
    let decls = s.discover(false).unwrap();
    assert_eq!(decls.len(), 1);
    assert_eq!(decls[0].description, "Register doc description.");
}

#[test]
fn discovered_functions_come_in_order() {
    let s = scripts(&[
        "docs.zeta = 'Z'\nfunction zeta() end\ndocs.gone = 'no function'",
        "--- Alpha\nfunction alpha() end\nregister('middle', { handler = function() end })",
    ]);
    let decls = s.discover(false).unwrap();
    let names: Vec<(&str, &str)> =
        decls.iter().map(|d| (d.name.as_str(), d.description.as_str())).collect();
    assert_eq!(names, vec![("middle", ""), ("alpha", "Alpha"), ("zeta", "Z")]);
    assert!(decls[1].parameters.properties.is_none());
    assert!(decls[1].parameters.required.is_none());
}

#[test]
fn comment_with_parameters_alone_documents_a_function() {
    let s = scripts(&["-- @param x Some number\nfunction twice(x) return 2 * x end"]);
    let decls = s.discover(false).unwrap();
    assert_eq!(decls.len(), 1);
    assert_eq!((decls[0].name.as_str(), decls[0].description.as_str()), ("twice", ""));
    assert_eq!(s.run("twice", r#"{"x": 4}"#, &Table::new()).unwrap(), Some(json("8")));
    assert_eq!(*s.announced.borrow(), vec!["Call twice (lua)"]);
}

#[test]
fn declaration_and_call_agree_on_what_a_function_declares() {
    let s = scripts(&[r#"
        docs.join = "Joins."
        function join(b, a) return b .. a end
        register("glue", { handler = function(y, x) return y .. x end })
    "#]);
    let decls = s.discover(false).unwrap();
    let names: Vec<&str> = decls.iter().map(|d| d.name.as_str()).collect();
    assert_eq!(names, vec!["glue", "join"]);
    let keys = |d: &FunctionDeclaration| -> Vec<String> {
        let p = d.parameters.properties.as_ref().unwrap();
        (0..p.len()).map(|i| p.entry(i).unwrap().0.clone()).collect()
    };
    assert_eq!(keys(&decls[0]), vec!["y", "x"]);
    assert_eq!(keys(&decls[1]), vec!["b", "a"]);
    let out = s.run("glue", r#"{"x": "X", "y": "Y"}"#, &Table::new()).unwrap();
    assert_eq!(out, Some(json(r#""YX""#)));
    let out = s.run("join", r#"{"a": "A", "b": "B"}"#, &Table::new()).unwrap();
    assert_eq!(out, Some(json(r#""BA""#)));
}

#[test]
fn declaration_and_call_agree_on_the_parameters() {
    let s = scripts(&[r#"
        -- @param b Second
        -- @param a First
        function pair(x) end
        register("pair", { handler = function(x, y) return x .. y end })
    "#]);
    let decls = s.discover(false).unwrap();
    assert_eq!(
        decls[0].parameters.required,
        Some(vec!["b".to_string(), "a".to_string()])
    );
    let out = s.run("pair", r#"{"a": "A", "b": "B"}"#, &Table::new()).unwrap().unwrap();
    assert_eq!(out, json(r#""BA""#));
}
