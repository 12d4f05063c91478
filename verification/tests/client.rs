use openai_api_rust::apis::images::{image_create, image_edit, image_variation, ImagesBody, ImagesEditBody};
use openai_api_rust::apis::models::{models_list, models_retrieve};
use openai_api_rust::apis::Role;
use openai_api_rust::error::Error;
use openai_api_rust::mpart::source::Cursor;
use openai_api_rust::openai::{Auth, Credentials, OpenAI, OpenAIBuilder};
use openai_api_rust::requests::{deal_response, request_headers, request_path, Json, Reply};

fn no_files(path: &str) -> Result<(Cursor, u64), String> {
    Err(path.to_string())
}

#[test]
fn test_credentials_builder() {
    // Create credentials directly
    let credentials = Credentials::new("manual_key", "https://manual.api.com/v1/")
        .with_organization("manual_org");

    assert_eq!(credentials.auth.api_key, "manual_key");
    assert_eq!(credentials.api_url, "https://manual.api.com/v1/");
    assert_eq!(credentials.auth.organization, Some("manual_org".to_string()));

    // Create OpenAI client using the builder pattern
    let client = OpenAI::builder()
        .api_key("builder_key")
        .api_url("https://builder.api.com/v1/")
        .organization("builder_org")
        .build()
        .unwrap();

    assert_eq!(client.auth.api_key, "builder_key");
    assert_eq!(client.api_url, "https://builder.api.com/v1/");
    assert_eq!(client.auth.organization, Some("builder_org".to_string()));
}

#[test]
fn credentials_from_what_the_environment_holds() {
    let credentials = Credentials::from_env_values(
        Some("test_key".to_string()),
        Some("https://test.api.com/v1/".to_string()),
        Some("test_org".to_string()),
    )
    .unwrap();
    assert_eq!(credentials.auth.api_key, "test_key");
    assert_eq!(credentials.api_url, "https://test.api.com/v1/");
    assert_eq!(credentials.auth.organization, Some("test_org".to_string()));

    let client = OpenAI::from_credentials(credentials);
    assert_eq!(client.auth.api_key, "test_key");
    assert_eq!(client.api_url, "https://test.api.com/v1/");
    assert_eq!(client.auth.organization, Some("test_org".to_string()));
    assert_eq!(client.proxy(), None);

    let client = OpenAI::from_env_values(
        Some("test_key".to_string()),
        Some("https://test.api.com/v1/".to_string()),
        Some("test_org".to_string()),
    )
    .unwrap();
    assert_eq!(client.auth.api_key, "test_key");
    assert_eq!(client.api_url, "https://test.api.com/v1/");
    assert_eq!(client.auth.organization, Some("test_org".to_string()));

    let credentials = Credentials::from_env_values(Some("test_key".to_string()), None, None).unwrap();
    assert_eq!(credentials.api_url, "https://api.openai.com/v1/");
    assert_eq!(credentials.auth.organization, None);
}

#[test]
fn credentials_need_a_key() {
    assert_eq!(
        Credentials::from_env_values(None, Some("u".to_string()), None).unwrap_err(),
        "Missing OPENAI_API_KEY"
    );
    assert_eq!(Auth::from_env_values(None, Some("org".to_string())).unwrap_err(), "Missing OPENAI_API_KEY");
    assert_eq!(OpenAI::from_env_values(None, None, None).unwrap_err(), "Missing OPENAI_API_KEY");
    let auth = Auth::from_env_values(Some("k".to_string()), Some("org".to_string())).unwrap();
    assert_eq!(auth.api_key, "k");
    assert_eq!(auth.organization, Some("org".to_string()));
}

#[test]
fn auth_is_a_key_and_maybe_an_organization() {
    let auth = Auth::new("sk-1");
    assert_eq!(auth.api_key, "sk-1");
    assert_eq!(auth.organization, None);
    let auth = auth.with_organization("org-1").with_organization("org-2");
    assert_eq!(auth.api_key, "sk-1");
    assert_eq!(auth.organization, Some("org-2".to_string()));
}

#[test]
fn a_builder_needs_a_key() {
    assert_eq!(OpenAIBuilder::new().build().unwrap_err(), "API key is required");
    assert_eq!(
        OpenAI::builder().api_url("u").organization("o").proxy("localhost").build().unwrap_err(),
        "API key is required"
    );
}

#[test]
fn a_builder_fills_in_the_address() {
    let client = OpenAI::builder().api_key("k").build().unwrap();
    assert_eq!(client.api_url, "https://api.openai.com/v1/");
    assert_eq!(client.auth.organization, None);
    assert_eq!(client.api_version, "");
    assert_eq!(client.proxy(), None);
}

#[test]
fn a_builder_takes_from_the_environment_what_is_not_set() {
    let client = OpenAI::builder()
        .api_url("https://set.example/")
        .from_env_values(
            Some("env_key".to_string()),
            Some("https://env.example/".to_string()),
            Some("env_org".to_string()),
        )
        .build()
        .unwrap();
    assert_eq!(client.auth.api_key, "env_key");
    assert_eq!(client.api_url, "https://set.example/");
    assert_eq!(client.auth.organization, Some("env_org".to_string()));
    assert_eq!(
        OpenAI::builder().from_env_values(None, None, None).build().unwrap_err(),
        "API key is required"
    );
}

#[test]
fn a_builder_sets_the_proxy() {
    let client = OpenAI::builder().api_key("k").proxy("http://127.0.0.1:8080").build().unwrap();
    assert_eq!(client.proxy(), Some("http://127.0.0.1:8080"));
    // A proxy of its own counts before the environment.
    let client = OpenAI::builder()
        .api_key("k")
        .use_env_proxy()
        .proxy("localhost")
        .build_with_env(Some("http://env.example:3128"), None)
        .unwrap();
    assert_eq!(client.proxy(), Some("localhost"));
}

#[test]
fn a_builder_refuses_what_is_no_proxy() {
    assert_eq!(
        OpenAI::builder().api_key("k").proxy("ftp://example.com").build().unwrap_err(),
        "Invalid proxy"
    );
    assert_eq!(
        OpenAI::builder().api_key("k").proxy("user@host").build().unwrap_err(),
        "Invalid proxy"
    );
}

#[test]
fn a_builder_asks_the_environment_only_when_told() {
    let client = OpenAI::builder()
        .api_key("k")
        .build_with_env(Some("http://env.example:3128"), Some("http://other.example"))
        .unwrap();
    assert_eq!(client.proxy(), None);
    let client = OpenAI::builder()
        .api_key("k")
        .use_env_proxy()
        .build_with_env(Some("http://env.example:3128"), Some("http://other.example"))
        .unwrap();
    assert_eq!(client.proxy(), Some("http://env.example:3128"));
    let client = OpenAI::builder().api_key("k").use_env_proxy().build().unwrap();
    assert_eq!(client.proxy(), None);
}

#[test]
fn the_proxy_of_the_environment_is_http_first() {
    let client = || OpenAI::new(Auth::new("k"), "https://api.example/");
    assert_eq!(
        client().use_env_proxy(Some("http://a.example"), Some("http://b.example")).proxy(),
        Some("http://a.example")
    );
    assert_eq!(
        client().use_env_proxy(None, Some("socks5://b.example:1080")).proxy(),
        Some("socks5://b.example:1080")
    );
    assert_eq!(client().use_env_proxy(None, None).proxy(), None);
    // What is no proxy leaves the client as it is, and the other is not
    // looked at.
    assert_eq!(client().use_env_proxy(Some("gopher://a"), Some("http://b.example")).proxy(), None);
}

#[test]
fn a_client_takes_a_proxy() {
    let client = OpenAI::new(Auth::new("k").with_organization("o"), "https://api.example/");
    assert_eq!(client.proxy(), None);
    let client = client.set_proxy("john:smith@socks.example:8000");
    assert_eq!(client.proxy(), Some("john:smith@socks.example:8000"));
    assert_eq!(client.auth.api_key, "k");
    assert_eq!(client.auth.organization, Some("o".to_string()));
    assert_eq!(client.api_url, "https://api.example/");
    let client = client.try_set_proxy("localhost").unwrap();
    assert_eq!(client.proxy(), Some("localhost"));
    let client = client.try_set_proxy("nope://x").unwrap_err();
    assert_eq!(client.proxy(), Some("localhost"));
    assert_eq!(client.api_url, "https://api.example/");
    let copy = client.clone();
    assert_eq!(copy.proxy(), Some("localhost"));
    let _agent: &ureq::Agent = copy.agent();
}

#[test]
fn the_address_of_a_request() {
    assert_eq!(
        request_path("https://api.openai.com/v1/", "", "chat/completions"),
        "https://api.openai.com/v1/chat/completions"
    );
    assert_eq!(
        request_path("https://x.azure.example/", "2023-03-15-preview", "chat/completions"),
        "https://x.azure.example/chat/completions?api-version=2023-03-15-preview"
    );
    assert_eq!(request_path("", "", ""), "");
}

#[test]
fn the_headers_of_a_request() {
    let pair = |name: &str, value: &str| (name.to_string(), value.to_string());
    assert_eq!(
        request_headers(&Auth::new("sk-1")),
        vec![
            pair("Content-Type", "application/json"),
            pair("OpenAI-Organization", ""),
            pair("Authorization", "Bearer sk-1"),
        ]
    );
    assert_eq!(
        request_headers(&Auth::new("sk-2").with_organization("org")),
        vec![
            pair("Content-Type", "application/json"),
            pair("OpenAI-Organization", "org"),
            pair("Authorization", "Bearer sk-2"),
        ]
    );
}

fn object(members: &[(&str, Json)]) -> Json {
    let mut map = serde_json::Map::new();
    for (key, value) in members {
        map.insert(key.to_string(), value.clone());
    }
    Json::Object(map)
}

#[test]
fn what_the_caller_gets_for_a_reply() {
    let body = object(&[("id", Json::String("babbage".to_string()))]);
    assert_eq!(deal_response(Reply::Body(body.clone())).unwrap(), body);

    let said = object(&[(
        "error",
        object(&[("message", Json::String("no such model".to_string())), ("code", Json::Null)]),
    )]);
    match deal_response(Reply::Status(404, said)) {
        Err(Error::ApiError(msg)) => {
            assert_eq!(msg, "{\"error\":{\"code\":null,\"message\":\"no such model\"}}")
        }
        other => panic!("{:?}", other),
    }

    match deal_response(Reply::Transport("connection refused".to_string())) {
        Err(Error::RequestError(msg)) => assert_eq!(msg, "connection refused"),
        other => panic!("{:?}", other),
    }
}

#[test]
fn an_error_as_a_line_of_text() {
    assert_eq!(Error::ApiError("quota".to_string()).to_string(), "API error: quota");
    assert_eq!(Error::RequestError("timeout".to_string()).to_string(), "Request error: timeout");
    assert_eq!(Error::ApiError(String::new()).to_string(), "API error: ");
}

#[test]
fn the_list_of_models_is_the_data_of_the_answer() {
    let list = Json::Array(vec![Json::String("a".to_string())]);
    assert_eq!(models_list(Some(list.clone())).unwrap(), list);
    match models_list(None) {
        Err(Error::ApiError(msg)) => assert_eq!(msg, "No data"),
        other => panic!("{:?}", other),
    }
    assert_eq!(models_retrieve("babbage"), "models/babbage");
    assert_eq!(models_retrieve(""), "models/");
}

#[test]
fn roles_are_written_in_lower_case() {
    assert_eq!(Role::System.as_str(), "system");
    assert_eq!(Role::Assistant.as_str(), "assistant");
    assert_eq!(Role::User.as_str(), "user");
}

fn settings(prompt: Option<&str>, n: Option<i32>) -> ImagesBody {
    ImagesBody {
        prompt: prompt.map(|p| p.to_string()),
        n,
        size: Some("1024x1024".to_string()),
        response_format: None,
        user: None,
    }
}

fn served(form: &mut openai_api_rust::mpart::fields::Mpart<Cursor>) -> String {
    let mut body = form.prepare_with_boundary("B".to_string(), no_files).unwrap();
    assert_eq!(body.content_length(), None);
    let mut buf = vec![0u8; 4096];
    let n = body.read(&mut buf).unwrap();
    String::from_utf8(buf[..n].to_vec()).unwrap()
}

fn text_part(name: &str, value: &str) -> String {
    format!("\r\n--B\r\nContent-Disposition: form-data; name=\"{}\"\r\n\r\n{}", name, value)
}

fn png_part(name: &str, data: &str) -> String {
    format!(
        "\r\n--B\r\nContent-Disposition: form-data; name=\"{}\"; filename=\"blob\"\r\nContent-Type: image/png\r\n\r\n{}",
        name, data
    )
}

#[test]
fn a_request_for_images_needs_a_prompt() {
    assert!(image_create(&settings(Some("A cute baby sea otter"), Some(2))).is_ok());
    match image_create(&settings(None, Some(2))) {
        Err(Error::ApiError(msg)) => assert_eq!(msg, "Prompt is required."),
        other => panic!("{:?}", other),
    }
}

#[test]
fn the_form_for_an_edit() {
    let body = ImagesEditBody {
        image: Cursor::new(b"IMAGE".to_vec()),
        mask: None,
        images_body: settings(Some("A cute baby sea otter wearing a beret"), Some(2)),
    };
    let mut form = image_edit(body).unwrap();
    assert_eq!(
        served(&mut form),
        text_part("prompt", "A cute baby sea otter wearing a beret")
            + &text_part("n", "2")
            + &text_part("size", "1024x1024")
            + &png_part("image", "IMAGE")
            + "\r\n--B--"
    );
}

#[test]
fn the_form_for_an_edit_with_everything_set() {
    let body = ImagesEditBody {
        image: Cursor::new(b"IMAGE".to_vec()),
        mask: Some(Cursor::new(b"MASK".to_vec())),
        images_body: ImagesBody {
            prompt: Some("p".to_string()),
            n: Some(-2147483648),
            size: Some("256x256".to_string()),
            response_format: Some("b64_json".to_string()),
            user: Some("u-1".to_string()),
        },
    };
    let mut form = image_edit(body).unwrap();
    assert_eq!(
        served(&mut form),
        text_part("prompt", "p")
            + &text_part("n", "-2147483648")
            + &text_part("size", "256x256")
            + &text_part("response_format", "b64_json")
            + &text_part("user", "u-1")
            + &png_part("mask", "MASK")
            + &png_part("image", "IMAGE")
            + "\r\n--B--"
    );
}

#[test]
fn an_edit_needs_a_prompt() {
    let body = ImagesEditBody {
        image: Cursor::new(b"IMAGE".to_vec()),
        mask: None,
        images_body: settings(None, Some(2)),
    };
    match image_edit(body) {
        Err(Error::ApiError(msg)) => assert_eq!(msg, "Prompt is required."),
        Ok(_) => panic!("a form was made"),
        Err(other) => panic!("{:?}", other),
    }
}

#[test]
fn the_form_for_variations() {
    let body = ImagesEditBody {
        image: Cursor::new(b"IMAGE".to_vec()),
        mask: Some(Cursor::new(b"MASK".to_vec())),
        images_body: settings(Some("not sent"), Some(10)),
    };
    let mut form = image_variation(body);
    assert_eq!(
        served(&mut form),
        text_part("n", "10") + &text_part("size", "1024x1024") + &png_part("image", "IMAGE") + "\r\n--B--"
    );
    let body = ImagesEditBody {
        image: Cursor::new(Vec::new()),
        mask: None,
        images_body: ImagesBody { prompt: None, n: None, size: None, response_format: None, user: None },
    };
    let mut form = image_variation(body);
    assert_eq!(served(&mut form), png_part("image", "") + "\r\n--B--");
}
