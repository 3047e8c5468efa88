//! Record projection and value-flattening engine for Avro-style datasets:
//! a tagged-union value model with a canonical rendering rule, schema
//! discovery from the first record, field-by-name projection with explicit
//! absent-cell semantics, row-limit truncation, regex row filtering, and
//! table / CSV rendering.
mod avro_read;
mod codec;
mod errors;
mod filter;
mod render;
mod service;
mod value;

pub use avro_read::avro_container_ok;
pub use avro_read::avro_decode_safe;
pub use avro_read::inflate_of;
pub use codec::Codec;
pub use codec::parse_codec;
pub use errors::RavroError;
pub use filter::filter_rows;
pub use filter::lemma_filter_order_preserving;
pub use filter::regex_compiles;
pub use filter::regex_found;
pub use filter::spec_kept_rows;
pub use filter::spec_row_kept;
pub use render::CellPlan;
pub use render::OutputFormat;
pub use render::all_plain;
pub use render::csv_line_of;
pub use render::plain_line;
pub use render::plain_text;
pub use render::newline_count;
pub use render::parse_output_format;
pub use render::plain_names;
pub use render::plain_row;
pub use render::plan_table;
pub use render::render_csv;
pub use service::Avro;
pub use service::AvroColumnarValue;
pub use service::CliService;
pub use service::DecodedEntry;
pub use service::DecodedFile;
pub use service::all_entries_decodable;
pub use service::dataset_rows;
pub use service::discover_field_names;
pub use service::lemma_project_all_records;
pub use service::record_rows;
pub use service::lemma_absent_name_yields_na;
pub use service::lemma_project_limit_prefix;
pub use service::lemma_project_row_shape;
pub use service::project;
pub use service::spec_codec_known;
pub use service::spec_source_safe;
pub use service::spec_project;
pub use service::spec_source_loads;
pub use value::AvroValue;
pub use value::FieldValue;
pub use value::ValueModel;
pub use value::lemma_absent_and_null_text;
pub use value::lemma_entries_roundtrip_count;
pub use value::lemma_value_roundtrip_count;
pub use value::render_field;
pub use value::render_value;
pub use value::sep_count;
