//! The server's configuration, as plain values: where data lives, which
//! backends are scanned, and how the server is reached. Loading it from
//! disk or environment happens outside the library.

use vstd::prelude::*;

verus! {

/// Where the converter binaries stand.
pub struct FfmpegConfig {
    pub ffmpeg_path: String,
    pub ffprobe_path: String,
}

impl FfmpegConfig {
    pub fn get_ffmpeg_path(&self) -> (r: String)
        ensures
            r@ == self.ffmpeg_path@,
    {
        self.ffmpeg_path.clone()
    }

    pub fn get_ffprobe_path(&self) -> (r: String)
        ensures
            r@ == self.ffprobe_path@,
    {
        self.ffprobe_path.clone()
    }
}

/// A named, rooted directory holding source video files.
pub struct Backend {
    pub name: String,
    pub root_dir: String,
}

/// The server's configuration. Cache directories default to
/// subdirectories of `data_dir`.
pub struct Config {
    pub data_dir: String,
    pub transcode_cache_dir: Option<String>,
    pub image_dir: Option<String>,
    pub ffmpeg_dir: Option<String>,
    pub backends: Vec<Backend>,
    pub tmdb_api_key: String,
    pub host: String,
    pub port: u16,
}

impl Config {
    /// A configuration must name at least one backend.
    pub open spec fn wf(self) -> bool {
        self.backends@.len() > 0
    }

    /// Where transcoded segments are cached.
    pub fn get_transcode_cache_dir(&self) -> (r: String)
        ensures
            r@ == match self.transcode_cache_dir {
                Some(d) => d@,
                None => self.data_dir@ + "/transcode_cache"@,
            },
    {
        match &self.transcode_cache_dir {
            Some(d) => d.clone(),
            None => String::from_str(self.data_dir.as_str()).concat("/transcode_cache"),
        }
    }

    /// Where proxied images are cached.
    pub fn get_image_dir(&self) -> (r: String)
        ensures
            r@ == match self.image_dir {
                Some(d) => d@,
                None => self.data_dir@ + "/image_cache"@,
            },
    {
        match &self.image_dir {
            Some(d) => d.clone(),
            None => String::from_str(self.data_dir.as_str()).concat("/image_cache"),
        }
    }

    /// Where the converter binaries are kept.
    pub fn get_ffmpeg_dir(&self) -> (r: String)
        ensures
            r@ == match self.ffmpeg_dir {
                Some(d) => d@,
                None => self.data_dir@ + "/ffmpeg_cache"@,
            },
    {
        match &self.ffmpeg_dir {
            Some(d) => d.clone(),
            None => String::from_str(self.data_dir.as_str()).concat("/ffmpeg_cache"),
        }
    }

    /// The default converter binary locations under the configured
    /// converter directory.
    pub fn default_ffmpeg_config(&self) -> (r: FfmpegConfig)
        ensures
            r.ffmpeg_path@ == match self.ffmpeg_dir {
                Some(d) => d@,
                None => self.data_dir@ + "/ffmpeg_cache"@,
            } + "/ffmpeg"@,
            r.ffprobe_path@ == match self.ffmpeg_dir {
                Some(d) => d@,
                None => self.data_dir@ + "/ffmpeg_cache"@,
            } + "/ffprobe"@,
    {
        let dir = self.get_ffmpeg_dir();
        let ffmpeg_path = String::from_str(dir.as_str()).concat("/ffmpeg");
        let ffprobe_path = dir.concat("/ffprobe");
        FfmpegConfig { ffmpeg_path, ffprobe_path }
    }

    /// The first backend carrying `name`, if any.
    pub fn get_backend_by_name(&self, name: &str) -> (r: Option<&Backend>)
        ensures
            match r {
                Some(b) => exists|i: int|
                    0 <= i < self.backends@.len() && *b == self.backends@[i]
                        && #[trigger] self.backends@[i].name@ == name@ && forall|j: int|
                        0 <= j < i ==> #[trigger] self.backends@[j].name@ != name@,
                None => forall|i: int|
                    0 <= i < self.backends@.len() ==> #[trigger] self.backends@[i].name@ != name@,
            },
    {
        let n = self.backends.len();
        for i in 0..n
            invariant
                n == self.backends@.len(),
                forall|j: int| 0 <= j < i ==> #[trigger] self.backends@[j].name@ != name@,
        {
            if crate::text::str_eq(self.backends[i].name.as_str(), name) {
                return Some(&self.backends[i]);
            }
        }
        None
    }
}

} // verus!
