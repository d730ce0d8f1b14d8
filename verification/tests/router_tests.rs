use serde_json::Value;
use web_server::{
    Handler, HttpMethod, HttpRequest, HttpRequestRaw, HttpResponse, HttpResponseBuilder,
    HttpStatusCode, Router, RouterOutcome, RoutingData,
};

enum TestHandler {
    Catcher404,
    GetHello,
    PostHello,
    PostUser,
    GetUserById,
    GetUserInfo,
}

impl Handler for TestHandler {
    fn call(&self, _request: &HttpRequest, routing_data: &RoutingData) -> Result<HttpResponse, String> {
        match self {
            TestHandler::Catcher404 => HttpResponseBuilder::new()
                .set_html_body("404 YOU ARE LOST")
                .build()
                .map_err(|_| "build failed".to_owned()),
            TestHandler::GetHello => HttpResponseBuilder::new()
                .set_html_body("Hello World!")
                .build()
                .map_err(|_| "build failed".to_owned()),
            TestHandler::PostHello => HttpResponseBuilder::new()
                .set_html_body("Hello World from POST!")
                .build()
                .map_err(|_| "build failed".to_owned()),
            TestHandler::PostUser => HttpResponseBuilder::new()
                .set_json_body("{\"created\":true}")
                .build()
                .map_err(|_| "build failed".to_owned()),
            TestHandler::GetUserById => {
                match routing_data.get_value("id").map_err(|_| "no id".to_owned())? {
                    Some(id) => {
                        let json = format!("{{\"id\":{},\"username\":\"user_{}\"}}", id, id);
                        HttpResponseBuilder::new()
                            .set_json_body(&json)
                            .build()
                            .map_err(|_| "build failed".to_owned())
                    }
                    None => HttpResponseBuilder::new()
                        .set_status(HttpStatusCode::BadRequest)
                        .build()
                        .map_err(|_| "build failed".to_owned()),
                }
            }
            TestHandler::GetUserInfo => {
                let id = routing_data
                    .get_str_value("id")
                    .map_err(|_| "no id".to_owned())?
                    .unwrap_or(String::new());
                let field = routing_data
                    .get_str_value("field")
                    .map_err(|_| "no field".to_owned())?
                    .unwrap_or(String::new());
                let json = format!("{{\"username\":\"user_{}\",\"field\":\"{}\"}}", id, field);
                HttpResponseBuilder::new()
                    .set_json_body(&json)
                    .build()
                    .map_err(|_| "build failed".to_owned())
            }
        }
    }
}

fn request(line: &str) -> HttpRequest {
    HttpRequest::from_raw_request(HttpRequestRaw {
        request_line: line.to_owned(),
        headers: Vec::new(),
        body: vec![],
        peer_ip: "0.0.0.0".to_owned(),
        local_ip: "0.0.0.0".to_owned(),
    })
    .unwrap()
}

fn response_of(outcome: RouterOutcome) -> HttpResponse {
    match outcome {
        RouterOutcome::Response(resp) => resp,
        _ => panic!("expected a handler response"),
    }
}

#[test]
fn test_unmatched_no_catcher() {
    let router: Router<TestHandler> = Router::new();

    let request = request("GET /hello HTTP/1.1");

    let outcome = router.handle_request(&request).unwrap();
    assert_eq!(RouterOutcome::NotFound, outcome);
}

#[test]
fn test_unmatched_get_catcher() {
    let router = Router::new()
        .catch_all(HttpMethod::GET, TestHandler::Catcher404)
        .unwrap();

    let request = request("GET /not-a-real-page HTTP/1.1");

    let response = response_of(router.handle_request(&request).unwrap());
    assert_eq!("404 YOU ARE LOST\r\n".as_bytes(), response.body);
}

#[test]
fn test_get_hello_html() {
    let router = Router::new()
        .get("/hello", TestHandler::GetHello)
        .unwrap()
        .catch_all(HttpMethod::GET, TestHandler::Catcher404)
        .unwrap();

    let request = request("GET /hello HTTP/1.1");

    let response = response_of(router.handle_request(&request).unwrap());
    assert_eq!("Hello World!\r\n".as_bytes(), response.body);
}

#[test]
fn test_get_hello_html_when_similar_route() {
    let router = Router::new()
        .get("/hello", TestHandler::GetHello)
        .unwrap()
        .post("/hello", TestHandler::PostHello)
        .unwrap()
        .catch_all(HttpMethod::GET, TestHandler::Catcher404)
        .unwrap();

    let request = request("GET /hello HTTP/1.1");

    let response = response_of(router.handle_request(&request).unwrap());
    assert_eq!("Hello World!\r\n".as_bytes(), response.body);
}

#[test]
fn test_post_user_json() {
    let router = Router::new().post("/user", TestHandler::PostUser).unwrap();

    let request = request("POST /user HTTP/1.1");

    let response = response_of(router.handle_request(&request).unwrap());
    assert_eq!("{\"created\":true}\r\n".as_bytes(), response.body);
}

#[test]
fn test_dynamic_route() {
    let router = Router::new()
        .get("/users/:id/details", TestHandler::GetUserById)
        .unwrap();

    let request = request("GET /users/5/details HTTP/1.1");

    let response = response_of(router.handle_request(&request).unwrap());
    let actual_res: Value = serde_json::from_slice(&response.body).unwrap();
    assert_eq!("user_5", actual_res["username"]);
}

#[test]
fn test_dynamic_route_value_parse() {
    let router = Router::new()
        .get("/users/:id/details", TestHandler::GetUserById)
        .unwrap();

    let request = request("GET /users/7/details HTTP/1.1");

    let response = response_of(router.handle_request(&request).unwrap());
    let actual_res: Value = serde_json::from_slice(&response.body).unwrap();
    assert_eq!(7, actual_res["id"]);
}

#[test]
fn test_dynamic_route_no_value() {
    let router = Router::new()
        .get("/users/:id", TestHandler::GetUserById)
        .unwrap();

    let request = request("GET /users HTTP/1.1");

    let response = response_of(router.handle_request(&request).unwrap());
    assert_eq!(HttpStatusCode::BadRequest.as_str(), response.status);
}

#[test]
fn test_dynamic_route_multiparams() {
    let router = Router::new()
        .get("/users/:id/info/:field", TestHandler::GetUserInfo)
        .unwrap();

    let request = request("GET /users/17/info/gender HTTP/1.1");

    let response = response_of(router.handle_request(&request).unwrap());
    let actual_res: Value = serde_json::from_slice(&response.body).unwrap();
    let expected_result: Value =
        serde_json::from_str("{\"username\":\"user_17\",\"field\":\"gender\"}").unwrap();
    assert_eq!(expected_result, actual_res);
}

#[test]
fn test_duplicate_route_rejected() {
    let router = Router::new()
        .get("/users/list", TestHandler::GetHello)
        .unwrap()
        .get("/users/list", TestHandler::PostHello);
    assert!(router.is_err());
}

#[test]
fn test_same_structure_dynamic_route_rejected() {
    let router = Router::new()
        .get("/a/:x", TestHandler::GetHello)
        .unwrap()
        .get("/a/:y", TestHandler::PostHello);
    assert!(router.is_err());
}

#[test]
fn test_same_path_other_method_ok() {
    let router = Router::new()
        .get("/a/:x", TestHandler::GetHello)
        .unwrap()
        .post("/a/:y", TestHandler::PostHello);
    assert!(router.is_ok());
}

#[test]
fn test_duplicate_catcher_rejected() {
    let router = Router::new()
        .catch_all(HttpMethod::GET, TestHandler::Catcher404)
        .unwrap()
        .catch_all(HttpMethod::GET, TestHandler::GetHello);
    assert!(router.is_err());
}

#[test]
fn test_nested_colon_rejected() {
    let router = Router::new().get("/a/:x:y", TestHandler::GetHello);
    assert!(router.is_err());
}
