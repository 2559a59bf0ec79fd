//! Event sourcing core: tags, sequence identifiers, queries over tagged events,
//! schema records, the in-memory log state, projection definitions and the
//! projection language that declares read models.
pub mod clock;
pub mod derive;
pub mod error;
pub mod event;
pub mod event_log;
pub mod json;
pub mod memory;
pub mod projection;
pub mod query;
pub mod schema;
pub mod schema_store;
pub mod text;
pub mod types;

pub use derive::{derive_event_from_source, derive_event_schema, map_rust_type_to_field_type, DeclaredField, DeclaredShape, DeriveEventError};
pub use error::{AppendCondition, AppendError, StoreError};
pub use event::StoredEvent;
pub use event_log::{EventLogError, SchemaConflictError, StreamError};
pub use memory::InMemoryLogStore;
pub use projection::codegen::{build_definition, definition_of, generated_layout, is_numeric_field, to_pascal_case};
pub use projection::definition::{
    F64Bits, FieldSpec, HandlerSpec, ObjectFieldSpec, ObjectFieldSpecBuilder, ProjectionDefinition,
    ProjectionDefinitionBuilder, ScalarFieldSpec, ScalarFieldSpecBuilder,
};
pub use projection::engine::{evaluate_path, ReadModel};
pub use projection::error::ProjectionError;
pub use projection::language::parse_projection_tokens;
pub use query::{Criterion, Query, TagFilter};
pub use schema::{Event, EventSchemaDef, FieldDef, FieldType};
pub use schema_store::EventSchemaError;
pub use types::{EventType, EventTypeSet, GlobalSequenceId, InvalidTag, NewEvent, Tag, TagSet};
