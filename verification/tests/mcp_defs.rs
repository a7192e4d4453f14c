use convergio_longrunning::mcp_defs::{path_params_of, route_table, tool_specs};

#[test]
fn route_table_lists_the_served_routes() {
    let r = route_table();
    assert_eq!(r.len(), 10);
    assert_eq!(r[0], ("POST".to_string(), "/api/longrunning/heartbeat".to_string()));
    assert_eq!(
        r[5],
        ("DELETE".to_string(), "/api/longrunning/checkpoint/:id/clear".to_string())
    );
    assert_eq!(r[9], ("GET".to_string(), "/api/longrunning/budget/:id".to_string()));
}

#[test]
fn every_tool_names_a_served_route() {
    let routes = route_table();
    let tools = tool_specs();
    assert_eq!(tools.len(), routes.len());
    for (t, r) in tools.iter().zip(routes.iter()) {
        assert_eq!(t.method, r.0);
        assert_eq!(t.path, r.1);
        assert_eq!(t.path_params, path_params_of(&t.path));
        for (k, p) in t.path_params.iter().enumerate() {
            assert_eq!(&t.properties[k].name, p);
            assert_eq!(t.properties[k].kind, "string");
            assert!(t.properties[k].required);
        }
        for req in &t.required {
            assert!(t.properties.iter().any(|p| &p.name == req));
        }
    }
}

#[test]
fn register_tool_matches_registration_route() {
    let tools = tool_specs();
    let reg = &tools[0];
    assert_eq!(reg.name, "cvg_register_heartbeat");
    assert_eq!(reg.method, "POST");
    assert_eq!(reg.path, "/api/longrunning/heartbeat");
    assert_eq!(reg.required, vec!["execution_id".to_string(), "interval_secs".to_string()]);
    let names: Vec<&str> = reg.properties.iter().map(|p| p.name.as_str()).collect();
    assert_eq!(names, vec!["execution_id", "interval_secs"]);
    assert_eq!(reg.properties[1].kind, "integer");
    assert_eq!(reg.min_ring, "trusted");
    assert!(reg.path_params.is_empty());
}

#[test]
fn beat_tool_requires_only_execution_id() {
    let tools = tool_specs();
    let beat = &tools[1];
    assert_eq!(beat.name, "cvg_heartbeat_beat");
    assert_eq!(beat.path, "/api/longrunning/heartbeat/beat");
    assert_eq!(beat.required, vec!["execution_id".to_string()]);
    assert_eq!(beat.properties.len(), 1);
}

#[test]
fn clear_checkpoint_tool_is_a_delete() {
    let tools = tool_specs();
    let clear = &tools[5];
    assert_eq!(clear.name, "cvg_clear_checkpoint");
    assert_eq!(clear.method, "DELETE");
    assert_eq!(clear.path, "/api/longrunning/checkpoint/:id/clear");
    assert_eq!(clear.path_params, vec!["id".to_string()]);
    assert_eq!(clear.required, vec!["id".to_string()]);
}

#[test]
fn save_checkpoint_data_is_optional() {
    let tools = tool_specs();
    let save = &tools[4];
    assert_eq!(save.required, vec!["id".to_string()]);
    assert_eq!(save.properties.len(), 2);
    assert_eq!(save.properties[1].name, "data");
    assert_eq!(save.properties[1].kind, "object");
    assert_eq!(save.properties[1].description.as_deref(), Some("Checkpoint data"));
    assert!(!save.properties[1].required);
}

#[test]
fn stale_tool_has_no_properties() {
    let tools = tool_specs();
    let stale = &tools[2];
    assert_eq!(stale.name, "cvg_stale_heartbeats");
    assert!(stale.properties.is_empty());
    assert!(stale.required.is_empty());
    assert_eq!(stale.min_ring, "community");
}

#[test]
fn path_params_are_colon_segments() {
    assert_eq!(path_params_of("/a/:x/b/:y"), vec!["x".to_string(), "y".to_string()]);
    assert_eq!(path_params_of("/api/longrunning/heartbeat"), Vec::<String>::new());
    assert_eq!(path_params_of("/a/b:c/:d"), vec!["d".to_string()]);
    assert_eq!(path_params_of(":only"), vec!["only".to_string()]);
    assert_eq!(path_params_of("/a/:/b"), vec!["".to_string()]);
}

#[test]
fn tool_rings_and_descriptions() {
    let tools = tool_specs();
    let rings: Vec<&str> = tools.iter().map(|t| t.min_ring.as_str()).collect();
    assert_eq!(
        rings,
        vec![
            "trusted", "trusted", "community", "community", "trusted", "trusted", "community",
            "community", "community", "community"
        ]
    );
    assert_eq!(tools[4].description, "Save a checkpoint for a long-running task.");
    assert_eq!(tools[9].description, "Get budget info for a long-running task.");
    for t in &tools[3..] {
        assert_eq!(t.properties[0].name, "id");
        assert_eq!(t.properties[0].kind, "string");
        assert!(t.properties[0].description.is_none());
        assert!(t.properties[0].required);
    }
}
