//! Text-mode renderers and parsers for several Mermaid diagram types.
pub mod canvas;
pub mod diagram;
pub mod gantt;
pub mod orchestrator;
pub mod quadrantchart;
pub mod sequence;
pub mod text;
