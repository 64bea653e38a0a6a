# figurehead

Text renderers and parsers for Mermaid-style diagrams, verified with Verus.

- `src/text.rs`: character-sequence helpers (trimming, splitting, searching,
  ASCII lower-casing, UTF-8 byte lengths, decimal numbers, the grammar of
  floating-point literals, line joining).
- `src/canvas.rs`: a character grid with a view as rows, and its text.
- `src/diagram.rs`: the detector interface and the pipeline errors, with the
  fault behind a refused line.
- `src/gantt/`: Gantt charts — database, detector, parser and renderer.
- `src/quadrantchart/`: quadrant charts — database, detector, parser and
  renderer, with word wrapping of point labels.
- `src/sequence/`: sequence diagrams — database, layout, and a renderer that
  draws a database or a given layout.
- `src/orchestrator.rs`: detection by confidence and routing to a pipeline.
- `app/`: the floating-point scaling that places Gantt bars, axis dates and
  quadrant points; the library renders from the positions it computes.
