//! Verified core of the Panda Note desktop client: domain models, Markdown
//! editing transforms, URL normalisation, session bookkeeping, sync decisions
//! and CJK word motions.

pub mod text;
pub mod model;
pub mod url;
pub mod excerpt;
pub mod lines;
pub mod markdown;
pub mod editor;
pub mod api;
pub mod session;
pub mod script;
pub mod cjk;
pub mod number;
pub mod sync;
pub mod clock;
pub mod todos;
pub mod order;
pub mod memos;
pub mod workspace;
pub mod notebooks;
pub mod view;
pub mod tree;
pub mod highlight;
