//! Reading the output of the Android tools that list applications.
pub mod android_utils;
