# qwen3vl

The planning core of a Qwen3-VL vision-language model, written and proved in Verus, and a thin
crate around it that runs the plans on candle tensors.

`src/` decides everything that is decided in integers:

- `rope`, `positions`, `decode`: the three-axis position of every token of a prompt, and of the
  tokens that follow it
- `grid`, `picture_grids`, `patches`, `interpolate`, `encode`: where the position and rotary embeddings of every
  patch of a picture are read, and how a pass over pictures goes
- `attention`, `spans`: how attention is cut into tiles
- `streaming`, `weights`, `metadata`, `residency`, `components`, `vision`: which stored tensor
  fills which weight, and when weights come and go
- `marks`, `scatter`, `visual`, `prefill`, `request`: which tokens pictures take the place of,
  and in which passes a prompt goes through the language model
- `text`, `model`, `modules`, `config`: the layers of the models and their caches
- `tensor`, `gguf`: the parts of candle that are called, and what is relied on of them
- `header`: the walk through the header of a weight file before candle parses it

`app/` holds what needs floating point, files or the operating system. `tests/` runs the library
on tensors.
