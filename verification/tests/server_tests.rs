use russel::cache::Cache;
use russel::config::{Config, Settings};
use russel::server::{
    clear_all, clear_cluster, delete, get, get_all_clusters, get_port, ApiResponse, Payload,
    Reply, SetRequest, Status,
};
use russel::service::{install_arguments, service_arguments, SERVICE_NAME};

fn request(cluster: &str, key: &str, value: &str) -> SetRequest {
    SetRequest { cluster: cluster.to_string(), key: key.to_string(), value: value.to_string() }
}

fn ok_text(text: &'static str) -> Reply {
    Reply { status: Status::Success, body: ApiResponse { is_success: true, data: Payload::Text(text) } }
}

#[test]
fn api_response_constructors() {
    let r = ApiResponse::ok(5u16);
    assert!(r.is_success);
    assert_eq!(r.data, 5);
    let f = ApiResponse::fail("nope");
    assert!(!f.is_success);
    assert_eq!(f.data, "nope");
}

#[test]
fn set_then_get_gives_the_utf8_bytes() {
    let mut cache = Cache::new();
    assert_eq!(russel::server::set(&mut cache, request("c", "k", "hé")), ok_text("Set operation successful"));
    let reply = get(&cache, "c".to_string(), "k".to_string());
    assert_eq!(reply.status, Status::Success);
    assert!(reply.body.is_success);
    assert_eq!(reply.body.data, Payload::Bytes(vec![b'h', 0xC3, 0xA9]));
}

#[test]
fn get_of_missing_key_is_not_found() {
    let cache = Cache::new();
    let reply = get(&cache, "c".to_string(), "k".to_string());
    assert_eq!(reply.status, Status::NotFound);
    assert!(!reply.body.is_success);
    assert_eq!(reply.body.data, Payload::Text("Key not found"));
}

#[test]
fn delete_always_succeeds() {
    let mut cache = Cache::new();
    russel::server::set(&mut cache, request("c", "k", "v"));
    assert_eq!(
        delete(&mut cache, "c".to_string(), "k".to_string()),
        ok_text("Delete operation successful")
    );
    assert_eq!(get(&cache, "c".to_string(), "k".to_string()).status, Status::NotFound);
    assert_eq!(
        delete(&mut cache, "c".to_string(), "k".to_string()),
        ok_text("Delete operation successful")
    );
}

#[test]
fn clearing_replies_and_empties() {
    let mut cache = Cache::new();
    russel::server::set(&mut cache, request("a", "k", "v"));
    russel::server::set(&mut cache, request("b", "k", "v"));
    assert_eq!(
        clear_cluster(&mut cache, "a".to_string()),
        ok_text("Clear cluster operation successful")
    );
    assert_eq!(get_all_clusters(&cache).body.data, Payload::Names(vec!["b".to_string()]));
    assert_eq!(clear_all(&mut cache), ok_text("Clear all operation successful"));
    let reply = get_all_clusters(&cache);
    assert_eq!(reply.status, Status::Success);
    assert!(reply.body.is_success);
    assert_eq!(reply.body.data, Payload::Names(vec![]));
}

#[test]
fn port_reply_carries_the_port() {
    let mut cache = Cache::new();
    let reply = get_port(&cache);
    assert_eq!(reply.status, Status::Success);
    assert_eq!(reply.body.data, Payload::Port(5022));
    cache.configure_default_port(9000);
    assert_eq!(get_port(&cache).body.data, Payload::Port(9000));
}

#[test]
fn install_arguments_name_the_service_and_quote_the_executable() {
    assert_eq!(SERVICE_NAME, "MyServiceName");
    assert_eq!(
        install_arguments("C:\\bin\\russel.exe"),
        "nssm.exe install MyServiceName, \"C:\\bin\\russel.exe\""
    );
}

#[test]
fn configuration_values_hold_their_fields() {
    let settings = Settings { port: 5022, memory_size_limit: 1024 };
    assert_eq!(settings.port, 5022);
    assert_eq!(settings.memory_size_limit, 1024);
    let config = Config { port: 1, max_ram_limit: 2 };
    assert_eq!(config, Config { port: 1, max_ram_limit: 2 });
}

#[test]
fn service_arguments_name_the_verb_and_the_service() {
    assert_eq!(service_arguments("start"), "nssm.exe start MyServiceName");
    assert_eq!(service_arguments("remove"), "nssm.exe remove MyServiceName");
}
