use ssmtool::{FetchError, FetchStatus, Page, Parameter, ParameterFetch};

fn param(name: &str, value: &str) -> Parameter {
    Parameter::new(name.to_string(), value.to_string())
}

fn page(params: Vec<Parameter>, next: Option<&str>) -> Page {
    Page { parameters: params, next_token: next.map(|t| t.to_string()) }
}

#[test]
fn first_request_has_no_cursor() {
    let f = ParameterFetch::new("/app/");
    assert_eq!(f.status(), FetchStatus::Running);
    let r = f.request();
    assert_eq!(r.path, "/app/");
    assert!(r.recursive);
    assert!(r.with_decryption);
    assert!(r.next_token.is_none());
}

#[test]
fn pages_are_followed_to_the_end() {
    let pages = vec![
        page(vec![param("/app/a", "1"), param("/app/b", "2")], Some("t1")),
        page(vec![], Some("t2")),
        page(vec![param("/app/c", "3")], None),
    ];
    let mut f = ParameterFetch::new("/app/");
    let mut requests = vec![f.request()];
    for p in pages {
        match f.on_page(p) {
            Some(r) => requests.push(r),
            None => break,
        }
    }
    assert_eq!(requests.len(), 3);
    assert!(requests[0].next_token.is_none());
    assert_eq!(requests[1].next_token.as_deref(), Some("t1"));
    assert_eq!(requests[2].next_token.as_deref(), Some("t2"));
    assert!(requests.iter().all(|r| r.path == "/app/"));
    assert_eq!(f.status(), FetchStatus::Done);
    let names: Vec<String> = f.into_parameters().into_iter().map(|p| p.name).collect();
    assert_eq!(names, vec!["/app/a", "/app/b", "/app/c"]);
}

#[test]
fn single_page_ends_the_fetch() {
    let mut f = ParameterFetch::new("/one/");
    assert!(f.on_page(page(vec![param("/one/x", "y")], None)).is_none());
    assert_eq!(f.status(), FetchStatus::Done);
    let params = f.into_parameters();
    assert_eq!(params.len(), 1);
    assert_eq!(params[0].value, "y");
}

#[test]
fn failed_page_ends_the_fetch() {
    let mut f = ParameterFetch::new("/app/");
    assert!(f.on_page(page(vec![param("/app/a", "1")], Some("t1"))).is_some());
    let e: FetchError = f.on_failure("access denied".to_string());
    assert_eq!(f.status(), FetchStatus::Failed);
    assert_eq!(e.path, "/app/");
    assert_eq!(e.cause, "access denied");
    assert_eq!(
        e.message(),
        "Retrieving parameters failed for path /app/: access denied"
    );
}
