//! Face detection post-processing for a single-shot, anchor-based detector.
//!
//! The crate holds the parts of the pipeline that decide something: which
//! files and which resolution belong to a model profile, how an image's
//! pixels are laid out for the network, how raw regression values become
//! boxes and keypoints, which candidates pass the score threshold, and which
//! of them survive greedy non-maximum suppression.
//!
//! Every quantity is an integer in fixed point, so that each contract is an
//! exact statement over the integers.

pub mod decode;
pub mod detector;
pub mod geometry;
pub mod preprocess;
pub mod profile;
pub mod suppress;
