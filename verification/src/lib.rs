pub mod arguments;
pub mod body_buffer;
pub mod build_laws;
pub mod change_laws;
pub mod component_laws;
pub mod components;
pub mod config_laws;
pub mod context;
pub mod engine_laws;
pub mod event_laws;
pub mod fetch;
pub mod fetch_laws;
pub mod fingerprint;
pub mod host;
pub mod js_laws;
pub mod js_script;
pub mod keyed;
pub mod line_laws;
pub mod octets;
pub mod ordered;
pub mod outgoing;
pub mod outgoing_laws;
pub mod output_laws;
pub mod paths;
pub mod py_laws;
pub mod python_script;
pub mod sandbox;
pub mod session;
pub mod session_laws;
pub mod state;
pub mod text;
pub mod urls;
pub mod value;
