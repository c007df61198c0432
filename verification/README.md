# video_gallery

A gallery of MP4 videos that shows one frame of each video as a thumbnail and can
filter the thumbnails by how similar they are to a chosen source image (CLIP image
embeddings, cosine similarity).

`src/` is the verified library (Verus):

- `annexb` — AVCC to Annex-B conversion of H.264 samples, with its laws.
- `sample_table` — which MP4 samples to decode for the frame at a given time, and
  the decoder's parameter-set payload.
- `frame` — the RGBA buffer size and the choice of the decoded picture.
- `score` — exact `<=` of `f32` similarity scores carried as their bit patterns.
- `similarity_quality` — the levels of the similarity filter.
- `path_key` — paths compared by their components, as `std::path::Path` does on Unix.
- `dir_tree`, `image_similarity` — the scanned folder tree and the scores by path.
- `grid` — the thumbnail grid: rows, filtering, one section per folder.
- `components`, `gallery`, `settings` — the window's state machines: each message
  changes the state and names the work (scan, score, save, download, dialog) that
  the application then performs.

`app/` is the iced program around it: it scans folders, reads and decodes videos,
runs the model, downloads it, saves settings and draws the widgets.
