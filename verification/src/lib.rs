pub mod aggregate;
pub mod agreement;
pub mod anomaly_laws;
pub mod breakdown_laws;
pub mod call_table;
pub mod discovery;
pub mod export;
pub mod export_laws;
pub mod fault_laws;
pub mod format;
pub mod frame;
pub mod growth;
pub mod import;
pub mod import_laws;
pub mod incremental;
pub mod json;
pub mod label_laws;
pub mod line;
pub mod line_laws;
pub mod model;
pub mod order;
pub mod outside;
pub mod parser;
pub mod parser_laws;
pub mod place_laws;
pub mod pricing;
pub mod pricing_laws;
pub mod reading_laws;
pub mod rebuild;
pub mod repeat;
pub mod report;
pub mod report_laws;
pub mod resume;
pub mod scan;
pub mod scan_laws;
pub mod shape_laws;
pub mod shown_laws;
pub mod stage_laws;
pub mod stages;
pub mod state;
pub mod steps;
pub mod store;
pub mod store_laws;
pub mod tally_laws;
pub mod text;
pub mod text_map;
pub mod thread_laws;
pub mod totals;
pub mod ui;
pub mod util;
pub mod watch;
