pub mod detection;
pub mod paths;
pub mod position;
pub mod text;
pub mod uri;
pub mod syntax;
pub mod patch;
pub mod lsp;
pub mod code_lenses;
pub mod hunk_header;
pub mod code_actions;
pub mod scip;
pub mod diagnostics;
pub mod document_links;
pub mod folding;
pub mod symbols;
pub mod highlights;
pub mod hover;
pub mod inlay_hints;
pub mod selection_ranges;
pub mod semantic;
pub mod goto_definition;
pub mod series;
pub mod series_reorder;
pub mod quilt;
pub mod series_code_lenses;
pub mod series_code_actions;
pub mod names;
pub mod series_completions;
pub mod series_diagnostics;
pub mod series_folding;
pub mod series_highlights;
pub mod series_links;
pub mod series_selection_ranges;
pub mod series_semantic;
pub mod series_symbols;
pub mod series_hover;
pub mod series_inlay_hints;
pub mod series_rename;
pub mod patch_quilt_actions;
pub mod patch_quilt_diagnostics;
pub mod patch_quilt_lenses;
pub mod reversal;
pub mod quilt_invocation;
pub mod split;
pub mod strip_prefix;
pub mod content_changes;
pub mod utf16_units;
