pub mod max_rects;
