//! Expert paging for mixture-of-experts models: the bookkeeping, file formats
//! and decisions of an engine that keeps a model's routed experts on disk and
//! pages them through a small cache of device slots.

pub mod act_math;
pub mod acts;
pub mod any;
pub mod apart;
pub mod api;
pub mod blob;
pub mod buffers;
pub mod bytes;
pub mod cache;
pub mod checkpoint;
pub mod choosing;
pub mod codec;
pub mod complete;
pub mod config;
pub mod convert;
pub mod core_file;
pub mod decode;
pub mod device;
pub mod dispatch;
pub mod drawing;
pub mod expert_math;
pub mod fields;
pub mod flags;
pub mod generate;
pub mod gguf;
pub mod gguf_image;
pub mod headers;
pub mod history;
pub mod holding;
pub mod json;
pub mod kimi;
pub mod kimi_layer;
pub mod launch;
pub mod lfu;
pub mod load;
pub mod loading;
pub mod lossless;
pub mod measures;
pub mod metrics;
pub mod model;
pub mod moving;
pub mod names;
pub mod order;
pub mod pack;
pub mod pack_file;
pub mod pager;
pub mod parked;
pub mod parking;
pub mod passes;
pub mod profile;
pub mod program;
pub mod quant;
pub mod qwen_layer;
pub mod rank;
pub mod registry;
pub mod repeatable;
pub mod repacking;
pub mod replies;
pub mod residency;
pub mod resizing;
pub mod responses;
pub mod reuse;
pub mod ring;
pub mod rng;
pub mod room;
pub mod runnable;
pub mod sample;
pub mod session;
pub mod settings;
pub mod shards;
pub mod shuffle;
pub mod st;
pub mod stepping;
pub mod steps;
pub mod table;
pub mod text;
pub mod tier;
pub mod tokens;
pub mod transfers;
pub mod vectors;
pub mod warmth;
