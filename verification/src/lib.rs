use vstd::prelude::*;

pub mod pt;
pub mod model;
pub mod grid;
pub mod text;
pub mod layout_context;
pub mod pagination;
pub mod alignment;
pub mod text_align;
pub mod tracking;
pub mod style;
pub mod visual_primitives;
pub mod list_style;
pub mod theme;
pub mod resolved_style;
pub mod fixed_size;
pub mod leaf;
pub mod table_span;
pub mod text_types;
pub mod wrap_tokenize;
pub mod run_order;
pub mod run_split;
pub mod list_markers;
pub mod form_field;
pub mod place;
pub mod columns;
pub mod text_frag;
pub mod table;
pub mod fonts;
pub mod list_item_measure;
pub mod wrap;
pub mod wrap_loop;
pub mod slack;
pub mod render_plan;
pub mod container;
pub mod container_measure;
pub mod container_arrange;
pub mod running_blocks;
pub mod text_arrange;
pub mod preformatted;
pub mod arrange;
pub mod table_pagination;
