//! Configuration and results of compiling LilyPond sources into SVG or PDF.
//! Running the LilyPond binary itself belongs to the application.
use vstd::prelude::*;

verus! {

/// Where generated files are placed.
#[derive(Debug)]
pub struct LilyPondGenerator {
    pub output_dir: String,
}

/// Outcome of an SVG generation.
#[derive(Debug)]
pub struct GenerationResult {
    pub success: bool,
    pub svg_content: Option<String>,
    pub error: Option<String>,
}

/// Outcome of a PDF generation.
#[derive(Debug)]
pub struct PdfGenerationResult {
    pub success: bool,
    pub pdf_data: Option<Vec<u8>>,
    pub error: Option<String>,
}

impl LilyPondGenerator {
    /// A generator writing into `output_dir`.
    pub fn new(output_dir: String) -> (g: Self)
        ensures
            g.output_dir == output_dir,
    {
        LilyPondGenerator { output_dir }
    }
}

} // verus!
