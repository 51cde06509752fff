use bit::agent::{
    anthropic_headers, ask, base_url, endpoint, openai_headers, post, reduce_verdict,
    to_openai_tools, workflows_context, Api, ChatStep, HttpReply, MAX_TURNS,
};
use bit::config::AgentConfig;
use bit::json::{from_text, to_text, Json};
use bit::tools::definitions;
use bit::workflows::Workflow;

fn cfg(provider: &str, base_url: &str) -> AgentConfig {
    AgentConfig {
        provider: provider.to_string(),
        base_url: base_url.to_string(),
        model: "m".to_string(),
        api_key: "k".to_string(),
    }
}

fn workflow(name: &str, triggers: &[&str], enabled: bool) -> Workflow {
    Workflow {
        id: String::new(),
        name: name.to_string(),
        trigger_phrases: triggers.iter().map(|t| t.to_string()).collect(),
        enabled,
        steps: Vec::new(),
    }
}

fn pair(a: &str, b: &str) -> (String, String) {
    (a.to_string(), b.to_string())
}

fn reply(text: &str) -> Result<Json, String> {
    post(HttpReply::Body(text.to_string()))
}

fn posted(step: ChatStep) -> Json {
    match step {
        ChatStep::Post(body) => from_text(&body).unwrap(),
        other => panic!("expected a request, got {other:?}"),
    }
}

#[test]
fn free_text_becomes_yes_or_no() {
    assert_eq!(reduce_verdict("Yes"), (true, 1));
    assert_eq!(reduce_verdict("no no"), (false, 2));
    assert_eq!(reduce_verdict("Yep, yes. YEAH! yup"), (true, 3));
    assert_eq!(reduce_verdict("yes no"), (true, 1));
    assert_eq!(reduce_verdict("nope, nah, yes"), (false, 2));
    assert_eq!(reduce_verdict("yesno"), (false, 1));
    assert_eq!(reduce_verdict(""), (false, 1));
    assert_eq!(reduce_verdict("YES İ"), (true, 1));
    assert_eq!(reduce_verdict(&"yes ".repeat(300)), (true, 3));
    let close = "yes ".repeat(255) + &"no ".repeat(256);
    assert_eq!(reduce_verdict(&close), (false, 3));
    let tie = "yes no ".repeat(300);
    assert_eq!(reduce_verdict(&tie), (true, 3));
}

#[test]
fn addresses_follow_provider_and_settings() {
    assert_eq!(base_url(&cfg("anthropic", "  ")), "https://api.anthropic.com");
    assert_eq!(base_url(&cfg("openai", "/")), "https://api.openai.com/v1");
    assert_eq!(base_url(&cfg("openrouter", "")), "https://openrouter.ai/api/v1");
    assert_eq!(base_url(&cfg("anything", "")), "https://api.z.ai/api/anthropic");
    assert_eq!(endpoint(&cfg("", " http://h/x// ")), "http://h/x/v1/messages");
    assert_eq!(endpoint(&cfg("openai", "http://h")), "http://h/chat/completions");
}

#[test]
fn headers_carry_the_key() {
    assert_eq!(
        anthropic_headers(&cfg("anthropic", "")),
        vec![pair("anthropic-version", "2023-06-01"), pair("x-api-key", "k")]
    );
    assert_eq!(
        anthropic_headers(&cfg("", "")),
        vec![
            pair("anthropic-version", "2023-06-01"),
            pair("authorization", "Bearer k")
        ]
    );
    assert_eq!(openai_headers(&cfg("openai", "")), vec![pair("authorization", "Bearer k")]);
    assert_eq!(
        openai_headers(&cfg("openrouter", "")),
        vec![
            pair("authorization", "Bearer k"),
            pair("http-referer", "https://github.com/kksimons/bit"),
            pair("x-title", "Bit")
        ]
    );
}

#[test]
fn enabled_workflows_are_told_of() {
    assert_eq!(
        workflows_context(&vec![workflow("off", &[], false)]),
        "\n\nThe user has no enabled workflows yet."
    );
    assert_eq!(
        workflows_context(&vec![
            workflow("Heatsink", &["let's work", "heat"], true),
            workflow("off", &[], false),
            workflow("b", &[], true),
        ]),
        "\n\nSaved workflows you can run (call run_workflow with the exact name):\
         \n- \"Heatsink\" — triggers: let's work, heat\n- \"b\""
    );
}

#[test]
fn tools_take_the_other_form() {
    let tools = to_openai_tools(&vec![Json::object().with("name", Json::text("t"))]);
    assert_eq!(
        to_text(&tools[0]),
        "{\"function\":{\"description\":null,\"name\":\"t\",\"parameters\":\
         {\"properties\":{},\"type\":\"object\"}},\"type\":\"function\"}"
    );
}

#[test]
fn an_anthropic_question_is_answered_with_tools() {
    let mut chat = ask(&cfg("anthropic", ""), &Vec::new(), &definitions(false), "open Safari");
    assert_eq!(chat.api, Api::Anthropic);
    let body = posted(chat.next());
    assert_eq!(body.str_at("model"), Some("m"));
    assert!(body.get("max_tokens").unwrap().is_u64(1024));
    assert_eq!(body.array_at("tools").len(), 3);
    assert_eq!(body.array_at("messages")[0].str_at("content"), Some("open Safari"));
    assert!(body.str_at("system").unwrap().starts_with("You are Bit"));

    let step = chat.reply(reply(
        "{\"stop_reason\":\"tool_use\",\"content\":[{\"type\":\"text\",\"text\":\"ok\"},\
         {\"type\":\"tool_use\",\"id\":\"1\",\"name\":\"open_app\",\"input\":{\"name\":\"Safari\"}},\
         {\"type\":\"tool_use\"}]}",
    ));
    match step {
        ChatStep::Run(calls) => {
            assert_eq!(calls.len(), 2);
            assert_eq!((calls[0].id.as_str(), calls[0].name.as_str()), ("1", "open_app"));
            assert_eq!(calls[0].input.str_at("name"), Some("Safari"));
            assert_eq!((calls[1].id.as_str(), calls[1].name.as_str()), ("", ""));
            assert_eq!(to_text(&calls[1].input), "{}");
        }
        other => panic!("expected calls, got {other:?}"),
    }
    chat.results(&vec![Ok("done".to_string()), Err("bad".to_string())]);
    let messages = posted(chat.next()).array_at("messages");
    assert_eq!(messages.len(), 3);
    assert_eq!(messages[1].str_at("role"), Some("assistant"));
    assert_eq!(
        to_text(&messages[2]),
        "{\"content\":[{\"content\":\"done\",\"is_error\":false,\"tool_use_id\":\"1\",\
         \"type\":\"tool_result\"},{\"content\":\"bad\",\"is_error\":true,\"tool_use_id\":\"\",\
         \"type\":\"tool_result\"}],\"role\":\"user\"}"
    );
    let end = chat.reply(reply(
        "{\"stop_reason\":\"end_turn\",\"content\":[{\"type\":\"text\",\"text\":\"yes \"},\
         {\"type\":\"text\",\"text\":\"yes\"}]}",
    ));
    assert_eq!(end, ChatStep::Done(Ok((true, 2))));
}

#[test]
fn an_openai_question_is_answered_with_tools() {
    let mut chat = ask(&cfg("openai", ""), &Vec::new(), &definitions(true), "hi");
    let body = posted(chat.next());
    assert_eq!(body.str_at("tool_choice"), Some("auto"));
    assert_eq!(body.array_at("tools").len(), 5);
    assert_eq!(body.array_at("messages")[0].str_at("role"), Some("system"));
    assert_eq!(body.array_at("messages")[1].str_at("content"), Some("hi"));
    let step = chat.reply(reply(
        "{\"choices\":[{\"message\":{\"role\":\"assistant\",\"tool_calls\":[\
         {\"id\":\"a\",\"function\":{\"name\":\"run_shell\",\"arguments\":\"{\\\"command\\\":\\\"ls\\\"}\"}},\
         {\"id\":\"b\",\"function\":{\"name\":\"x\",\"arguments\":\"not json\"}}]}}]}",
    ));
    match step {
        ChatStep::Run(calls) => {
            assert_eq!(calls[0].input.str_at("command"), Some("ls"));
            assert_eq!(to_text(&calls[1].input), "{}");
        }
        other => panic!("expected calls, got {other:?}"),
    }
    chat.results(&vec![Ok("files".to_string()), Err("unknown tool: x".to_string())]);
    let messages = posted(chat.next()).array_at("messages");
    assert_eq!(messages.len(), 5);
    assert_eq!(
        to_text(&messages[4]),
        "{\"content\":\"unknown tool: x\",\"role\":\"tool\",\"tool_call_id\":\"b\"}"
    );
    assert_eq!(
        chat.reply(reply("{\"choices\":[{\"message\":{\"content\":\"No.\"}}]}")),
        ChatStep::Done(Ok((false, 1)))
    );
}

#[test]
fn a_reply_without_choices_is_an_error() {
    let mut chat = ask(&cfg("openrouter", ""), &Vec::new(), &Vec::new(), "hi");
    chat.next();
    assert_eq!(
        chat.reply(reply("{\"choices\":[]}")),
        ChatStep::Done(Err("no choices in response".to_string()))
    );
}

#[test]
fn endless_tool_use_is_given_up() {
    let mut chat = ask(&cfg("", ""), &Vec::new(), &Vec::new(), "hi");
    for _ in 0..MAX_TURNS {
        assert!(matches!(chat.next(), ChatStep::Post(_)));
        assert!(matches!(
            chat.reply(reply("{\"stop_reason\":\"tool_use\"}")),
            ChatStep::Run(_)
        ));
        chat.results(&Vec::new());
    }
    assert_eq!(
        chat.next(),
        ChatStep::Done(Err("tool loop exceeded max turns".to_string()))
    );
}

#[test]
fn failed_requests_end_the_question() {
    assert_eq!(
        post(HttpReply::Status { code: 401, body: "denied".to_string() }),
        Err("HTTP 401: denied".to_string())
    );
    assert_eq!(post(HttpReply::Failed("offline".to_string())), Err("offline".to_string()));
    assert_eq!(
        reply("{"),
        Err("Failed to read JSON: EOF while parsing an object at line 1 column 1".to_string())
    );
    assert_eq!(
        post(HttpReply::Unreadable("cut off".to_string())),
        Err("Failed to read JSON: cut off".to_string())
    );
    let mut chat = ask(&cfg("", ""), &Vec::new(), &Vec::new(), "hi");
    chat.next();
    assert_eq!(
        chat.reply(Err("offline".to_string())),
        ChatStep::Done(Err("offline".to_string()))
    );
}

#[test]
fn numbers_are_written_as_they_were_read() {
    for (given, printed) in [
        ("0.99999999999999989", "0.9999999999999999"),
        ("1.0", "1.0"),
        ("1e16", "1e+16"),
        ("-5", "-5"),
        ("-0.0", "-0.0"),
        ("18446744073709551615", "18446744073709551615"),
        ("-9223372036854775808", "-9223372036854775808"),
        ("0.1", "0.1"),
    ] {
        assert_eq!(to_text(&from_text(given).unwrap()), printed);
    }
    for bad in ["", "x", "inf", "NaN"] {
        assert_eq!(to_text(&Json::Number(bad.to_string())), "null");
    }
}

#[test]
fn values_are_read_and_written() {
    let text = "{\"a\":[null,true,1.5,\"x\\n\"],\"b\":{}}";
    let v = from_text(text).unwrap();
    assert_eq!(to_text(&v), text);
    assert_eq!(v.array_at("a").len(), 4);
    assert_eq!(v.get("b"), Some(&Json::object()));
    assert_eq!(v.str_at("c"), None);
    let twice = Json::object().with("a", Json::Null).with("a", Json::text("b"));
    assert_eq!((twice.str_at("a"), to_text(&twice).as_str()), (Some("b"), "{\"a\":\"b\"}"));
    assert_eq!(from_text("[1, 2").unwrap_err(), "EOF while parsing a list at line 1 column 5");
}
